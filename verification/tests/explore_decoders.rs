use ruefi::explore::acpi::{
    ascii, entry_region, parse_rsdp, pick_rsdp, ConfigTableKind, read_u32, read_u64, root_table, table_addresses, table_summary, RootTable,
};
use ruefi::explore::disks::{disk_row, DiskDevice};
use ruefi::explore::memmap::{summarize, MemRegion};
use ruefi::explore::pci::{slot_outcome, PciDevice, PciScan, PciSlot, SlotOutcome};
use ruefi::explore::protocols::{count_present, ProtocolStatus};
use ruefi::explore::vars::format_attributes;
use ruefi::explore::well_known_vars::describe;
use ruefi::hda_uefi::{bar0_is_64bit, enabled_command, is_hda, mmio_base};
use ruefi::screens::{acpi_row, memory_row, pci_row, region_list_text};

fn rsdp(revision: u8, rsdt: u32, xsdt: u64) -> Vec<u8> {
    let mut b = Vec::new();
    b.extend_from_slice(b"RSD PTR ");
    b.push(0);
    b.extend_from_slice(b"BOCHS ");
    b.push(revision);
    b.extend_from_slice(&rsdt.to_le_bytes());
    b.extend_from_slice(&36u32.to_le_bytes());
    b.extend_from_slice(&xsdt.to_le_bytes());
    b.extend_from_slice(&[0, 0, 0, 0]);
    b
}

fn header(sig: &[u8; 4], length: u32, oem: &[u8; 6]) -> Vec<u8> {
    let mut b = Vec::new();
    b.extend_from_slice(sig);
    b.extend_from_slice(&length.to_le_bytes());
    b.push(1);
    b.push(0);
    b.extend_from_slice(oem);
    b.extend_from_slice(b"BXPCFACP");
    b.extend_from_slice(&[1, 0, 0, 0, b'B', b'X', b'P', b'C', 1, 0, 0, 0]);
    b
}

#[test]
fn rsdp_fields_and_root_choice() {
    let r = parse_rsdp(&rsdp(2, 0x7FE1_4000, 0x7FE1_5000));
    assert_eq!(r.revision, 2);
    assert_eq!(r.rsdt_address, 0x7FE1_4000);
    assert_eq!(r.xsdt_address, 0x7FE1_5000);
    assert_eq!(root_table(&r), Some(RootTable { address: 0x7FE1_5000, entry_size: 8 }));
    let r = parse_rsdp(&rsdp(0, 0x7FE1_4000, 0));
    assert_eq!(root_table(&r), Some(RootTable { address: 0x7FE1_4000, entry_size: 4 }));
    let r = parse_rsdp(&rsdp(2, 0x7FE1_4000, 0));
    assert_eq!(root_table(&r), Some(RootTable { address: 0x7FE1_4000, entry_size: 4 }));
    let r = parse_rsdp(&rsdp(0, 0, 0x7FE1_5000));
    assert_eq!(root_table(&r), None);
}

#[test]
fn root_table_entries() {
    let root = RootTable { address: 0x1000, entry_size: 8 };
    let region = entry_region(&root, 36 + 8 * 3 + 4);
    assert_eq!(region.address, 0x1000 + 36);
    assert_eq!(region.count, 3);
    assert_eq!(region.byte_len, 24);
    let mut entries = Vec::new();
    for a in [0x7FE1_6000u64, 0, 0x1_0000_0000] {
        entries.extend_from_slice(&a.to_le_bytes());
    }
    assert_eq!(table_addresses(&entries, 8), vec![0x7FE1_6000, 0x1_0000_0000]);
    let mut entries = Vec::new();
    for a in [0x11u32, 0x22, 0, 0x44] {
        entries.extend_from_slice(&a.to_le_bytes());
    }
    assert_eq!(table_addresses(&entries, 4), vec![0x11, 0x22, 0x44]);
    assert_eq!(table_addresses(&entries[..7], 4), vec![0x11]);
}

#[test]
fn table_header_summary() {
    let h = header(b"FACP", 0x114, b"BOCHS\x01");
    let t = table_summary(0x7FE1_6000, &h);
    assert_eq!(t.signature, "FACP");
    assert_eq!(t.length, 0x114);
    assert_eq!(t.oem_id, "BOCHS.");
    assert_eq!(t.address, 0x7FE1_6000);
    assert_eq!(acpi_row(&t), vec!["FACP", "0x7fe16000", "276", "BOCHS."]);
    assert_eq!(ascii(b"A\x00 ~\x7f", 0, 5), "A. ~.");
    assert_eq!(read_u32(&[1, 2, 3, 4], 0), 0x0403_0201);
    assert_eq!(read_u64(&[1, 2, 3, 4, 5, 6, 7, 8], 0), 0x0807_0605_0403_0201);
}

#[test]
fn variable_attributes_text() {
    assert_eq!(format_attributes(0), "-");
    assert_eq!(format_attributes(0x7), "NV BS RT");
    assert_eq!(format_attributes(0xF), "NV BS RT HR");
    assert_eq!(format_attributes(0x2), "BS");
    assert_eq!(format_attributes(0x6), "BS RT");
    assert_eq!(format_attributes(0x10), "-");
    assert_eq!(format_attributes(0x8), "HR");
}

#[test]
fn well_known_variables_are_described() {
    assert_eq!(
        describe("BootOrder", true),
        Some("Ordered list of Boot#### option numbers: the firmware boot menu's order.")
    );
    assert_eq!(describe("BootOrder", false), None);
    assert_eq!(describe("Boot000A", true), Some("A boot load option: one entry in the firmware's boot menu."));
    assert_eq!(describe("Boot000G", true), None);
    assert_eq!(describe("Boot00001", true), None);
    assert_eq!(
        describe("Driver0001", true),
        Some("A driver load option: a UEFI driver the firmware can load at boot.")
    );
    assert_eq!(
        describe("CapsuleUpdateData", true),
        Some("State for the UEFI capsule update mechanism (firmware updates).")
    );
    assert_eq!(describe("MyVendorThing", true), None);
}

fn device(header_type: u8, bars: [u32; 6]) -> PciDevice {
    PciDevice {
        bus: 0,
        device: 0x1f,
        function: 3,
        vendor_id: 0x8086,
        device_id: 0x293e,
        class: 0x04,
        subclass: 0x03,
        prog_if: 0,
        revision: 3,
        header_type,
        bars,
    }
}

#[test]
fn pci_bars_and_rows() {
    let d = device(0, [0xfebf_0004, 0, 0xc001, 0xfe00_000c, 0, 0]);
    assert_eq!(d.decode_bar(0).as_deref(), Some("Memory, 64-bit, non-prefetchable, base 0xfebf0000"));
    assert_eq!(d.decode_bar(1), None);
    assert_eq!(d.decode_bar(2).as_deref(), Some("I/O, base 0xc000"));
    assert_eq!(d.decode_bar(3).as_deref(), Some("Memory, 64-bit, prefetchable, base 0xfe000000"));
    assert_eq!(d.decode_bar(6), None);
    assert_eq!(device(1, [0xfebf_0000, 0, 0, 0, 0, 0]).decode_bar(0), None);
    assert_eq!(d.class_name(), "Multimedia controller");
    assert_eq!(pci_row(&d), vec!["00:1f.3", "8086:293e", "Multimedia controller", "0x03"]);
}

#[test]
fn pci_device_from_config_registers() {
    let d = PciDevice::from_config(0, PciSlot { device: 2, function: 1 }, 0x293e_8086, 0x0403_0003, 0x0080_0000, [7, 0, 0, 0, 0, 0]);
    assert_eq!(d.vendor_id, 0x8086);
    assert_eq!(d.device_id, 0x293e);
    assert_eq!((d.class, d.subclass, d.prog_if, d.revision), (0x04, 0x03, 0x00, 0x03));
    assert_eq!(d.header_type, 0x80);
    assert_eq!((d.device, d.function), (2, 1));
    assert_eq!(d.bars[0], 7);
    let bridge = PciDevice::from_config(0, PciSlot { device: 1, function: 0 }, 0x1234_8086, 0x0604_0000, 0x0001_0000, [7, 8, 0, 0, 0, 0]);
    assert_eq!(bridge.bars, [0; 6]);
}

#[test]
fn pci_scan_skips_empty_and_single_function_devices() {
    // Device 0: single-function; device 1: empty; device 2: multi-function
    // with functions 0 and 1; everything else empty.
    let probe = |s: PciSlot| -> SlotOutcome {
        match (s.device, s.function) {
            (0, 0) => slot_outcome(Some(0x1237_8086), 0x0000_0000),
            (2, 0) => slot_outcome(Some(0x7000_8086), 0x0080_0000),
            (2, 1) => slot_outcome(Some(0x7010_8086), 0x0000_0000),
            _ => slot_outcome(Some(0xffff_ffff), 0),
        }
    };
    let mut scan = PciScan::new();
    let mut visited = Vec::new();
    while let Some(slot) = scan.current() {
        visited.push((slot.device, slot.function));
        scan.advance(probe(slot));
    }
    assert_eq!(visited.len(), 1 + 1 + 8 + 29);
    assert_eq!(&visited[..4], &[(0, 0), (1, 0), (2, 0), (2, 1)]);
    assert_eq!(visited[9], (2, 7));
    assert_eq!(visited[10], (3, 0));
    assert_eq!(*visited.last().unwrap(), (31, 0));
}

#[test]
fn pci_scan_unreadable_function_zero_tries_the_next_function() {
    let mut scan = PciScan::new();
    scan.advance(slot_outcome(None, 0));
    assert_eq!(scan.current(), Some(PciSlot { device: 0, function: 1 }));
    assert_eq!(slot_outcome(Some(0x0000_ffff), 0), SlotOutcome::Empty);
    assert_eq!(slot_outcome(Some(0x1234_8086), 0x0080_0000), SlotOutcome::Present { multi_function: true });
}

#[test]
fn hda_controller_identification() {
    assert!(is_hda(0x0403_0000));
    assert!(!is_hda(0x0401_0000));
    assert!(!is_hda(0x0c03_0000));
    assert!(bar0_is_64bit(0xfebf_0004));
    assert!(!bar0_is_64bit(0xfebf_0000));
    assert_eq!(mmio_base(0xfebf_0004, 0x1), 0x1_febf_0000);
    assert_eq!(mmio_base(0xfebf_000f, 0x1), 0xfebf_0000);
    assert_eq!(mmio_base(0xfebf_000c, 0x2), 0x2_febf_0000);
    assert_eq!(mmio_base(0xfebf_0008, 0x1), 0xfebf_0000);
    assert_eq!(enabled_command(0x0000), 0x0006);
    assert_eq!(enabled_command(0x0402), 0x0406);
    assert_eq!(enabled_command(0x0001), 0x0007);
}

fn region(ty: &str, start: u64, pages: u64) -> MemRegion {
    MemRegion { ty: String::from(ty), phys_start: start, page_count: pages }
}

#[test]
fn memory_map_summary_groups_and_orders_by_pages() {
    let regions = vec![
        region("LOADER_CODE", 0x0, 10),
        region("CONVENTIONAL", 0x10000, 500),
        region("BOOT_SERVICES_DATA", 0x300000, 20),
        region("CONVENTIONAL", 0x500000, 100),
        region("LOADER_CODE", 0x700000, 10),
        region("ACPI_RECLAIM", 0x900000, 20),
    ];
    let s = summarize(&regions);
    assert_eq!(
        s,
        vec![
            (String::from("CONVENTIONAL"), 600, 2),
            (String::from("LOADER_CODE"), 20, 2),
            (String::from("BOOT_SERVICES_DATA"), 20, 1),
            (String::from("ACPI_RECLAIM"), 20, 1),
        ]
    );
    assert_eq!(regions[1].size_bytes(), 500 * 4096);
    assert_eq!(memory_row("CONVENTIONAL", 600, 2), vec!["CONVENTIONAL", "2", "600", "2.3 MB"]);
    assert_eq!(
        region_list_text(&regions, "LOADER_CODE"),
        "0x0000000000000000        10 pages  40.0 kB\n0x0000000000700000        10 pages  40.0 kB"
    );
    assert_eq!(region_list_text(&regions, "MMIO"), "");
}

#[test]
fn memory_region_list_is_truncated_after_sixty() {
    let regions: Vec<MemRegion> = (0..65u64).map(|i| region("CONVENTIONAL", i * 0x1000, 1)).collect();
    let text = region_list_text(&regions, "CONVENTIONAL");
    let mut expected = String::new();
    for i in 0..60u64 {
        expected.push_str(&format!("{:#018x}  {:>8} pages  {}\n", i * 0x1000, 1, "4.0 kB"));
    }
    expected.push_str("\n... and 5 more");
    assert_eq!(text, expected);
}

#[test]
fn disk_rows() {
    let d = DiskDevice {
        media_id: 1,
        removable: false,
        logical_partition: false,
        read_only: true,
        block_size: 512,
        last_block: 2_097_151,
    };
    assert_eq!(d.size_bytes(), 1 << 30);
    assert_eq!(disk_row(0, &d), vec!["0", "disk", "yes", "512", "2097152", "1.0 GB"]);
    let p = DiskDevice { logical_partition: true, removable: true, read_only: false, ..d };
    assert_eq!(disk_row(3, &p)[1..3], ["partition", "no"]);
    let r = DiskDevice { logical_partition: false, removable: true, ..d };
    assert_eq!(r.kind(), "removable");
}

#[test]
fn protocol_detail_text_shows_the_guid() {
    let p = ProtocolStatus {
        category: "Console",
        name: "Graphics Output",
        guid: [
            0xde, 0xa9, 0x42, 0x90, 0xdc, 0x23, 0x38, 0x4a, 0x96, 0xfb, 0x7a, 0xde, 0xd0, 0x80, 0x51, 0x6a,
        ],
        description: "Framebuffer access.",
        handle_count: 1,
    };
    assert_eq!(
        p.detail_text(),
        "Category:    Console\nProtocol:    Graphics Output\nGUID:        9042a9de-23dc-4a38-96fb-7aded080516a\nStatus:      present -- 1 handle(s) implement it\n\nFramebuffer access."
    );
    assert_eq!(p.status_cell(), "present (1 handle)");
    let q = ProtocolStatus { handle_count: 0, ..p.clone() };
    assert_eq!(q.status_cell(), "absent");
    assert!(q.detail_text().contains("Status:      absent -- no handle in the protocol database implements it\n"));
    let r = ProtocolStatus { handle_count: 3, ..p.clone() };
    assert_eq!(r.status_cell(), "present (3 handles)");
    assert_eq!(count_present(&[p, q, r]), 2);
}

#[test]
fn rsdp_prefers_the_acpi2_entry() {
    assert_eq!(pick_rsdp(&[(ConfigTableKind::Other, 1), (ConfigTableKind::Acpi1, 0x1000), (ConfigTableKind::Acpi2, 0x2000), (ConfigTableKind::Acpi2, 0x3000)]), Some(0x2000));
    assert_eq!(pick_rsdp(&[(ConfigTableKind::Other, 1), (ConfigTableKind::Acpi1, 0x1000), (ConfigTableKind::Acpi1, 0x4000)]), Some(0x1000));
    assert_eq!(pick_rsdp(&[(ConfigTableKind::Other, 1)]), None);
    assert_eq!(pick_rsdp(&[]), None);
}
