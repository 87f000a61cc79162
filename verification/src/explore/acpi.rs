//! Reading ACPI's root tables from their raw bytes: the RSDP names the
//! root table (the XSDT with 64-bit entries, or on ACPI 1.0 firmware the
//! RSDT with 32-bit ones), the root table's header gives its length and so
//! its entry count, and every entry is the physical address of a table
//! whose 36-byte header is summarised here.
use vstd::prelude::*;

use crate::text::{ascii_char, printable, push_char};

verus! {

/// Size of an ACPI system description table header.
pub const SDT_HEADER_LEN: usize = 36;

/// Size of the RSDP in its ACPI 2.0 layout.
pub const RSDP_LEN: usize = 36;

/// One ACPI table found in the XSDT/RSDT.
#[derive(Debug, Clone)]
pub struct AcpiTableSummary {
    pub signature: String,
    pub address: u64,
    pub length: u32,
    pub oem_id: String,
}

/// What the ACPI walk found.
#[derive(Debug, Clone)]
pub struct AcpiInfo {
    /// ACPI revision (0 = ACPI 1.0 / RSDT only, 2+ = XSDT available).
    pub revision: u8,
    pub tables: Vec<AcpiTableSummary>,
}

/// The bytes `[from, to)` of `b` as an ASCII column shows them.
pub open spec fn ascii_text(b: Seq<u8>, from: int, to: int) -> Seq<char> {
    b.subrange(from, to).map_values(|c: u8| ascii_char(c))
}

/// The little-endian `u32` at `off`.
pub open spec fn le_u32(b: Seq<u8>, off: int) -> u32 {
    (b[off] + b[off + 1] * 0x100 + b[off + 2] * 0x10000 + b[off + 3] * 0x1000000) as u32
}

/// The little-endian `u64` at `off`.
pub open spec fn le_u64(b: Seq<u8>, off: int) -> u64 {
    (le_u32(b, off) + le_u32(b, off + 4) * 0x1_0000_0000) as u64
}

/// Bytes `[from, to)` of `bytes` as an ASCII column shows them.
pub fn ascii(bytes: &[u8], from: usize, to: usize) -> (r: String)
    requires
        from <= to <= bytes@.len(),
    ensures
        r@ == ascii_text(bytes@, from as int, to as int),
{
    let mut r = String::new();
    let mut i = from;
    while i < to
        invariant
            from <= i <= to <= bytes@.len(),
            r@ == ascii_text(bytes@, from as int, i as int),
        decreases to - i,
    {
        push_char(&mut r, printable(bytes[i]));
        proof {
            assert(ascii_text(bytes@, from as int, i + 1) =~= ascii_text(bytes@, from as int, i as int).push(
                ascii_char(bytes@[i as int]),
            ));
        }
        i += 1;
    }
    r
}

/// Reads the little-endian `u32` at `off`.
pub fn read_u32(bytes: &[u8], off: usize) -> (r: u32)
    requires
        off + 4 <= bytes@.len(),
    ensures
        r == le_u32(bytes@, off as int),
{
    let (b0, b1, b2, b3) = (bytes[off] as u32, bytes[off + 1] as u32, bytes[off + 2] as u32, bytes[off + 3] as u32);
    b0 + b1 * 0x100 + b2 * 0x10000 + b3 * 0x1000000
}

/// Reads the little-endian `u64` at `off`.
pub fn read_u64(bytes: &[u8], off: usize) -> (r: u64)
    requires
        off + 8 <= bytes@.len(),
    ensures
        r == le_u64(bytes@, off as int),
{
    let n = bytes.len();
    assert(off + 4 <= n);
    let lo = read_u32(bytes, off) as u64;
    let hi = read_u32(bytes, off + 4) as u64;
    lo + hi * 0x1_0000_0000
}

/// Summarises the table whose header `header` was read at `address`:
/// signature (bytes 0-3), length (bytes 4-7) and OEM id (bytes 10-15).
pub fn table_summary(address: u64, header: &[u8]) -> (r: AcpiTableSummary)
    requires
        header@.len() >= SDT_HEADER_LEN,
    ensures
        r.signature@ == ascii_text(header@, 0, 4),
        r.address == address,
        r.length == le_u32(header@, 4),
        r.oem_id@ == ascii_text(header@, 10, 16),
{
    AcpiTableSummary {
        signature: ascii(header, 0, 4),
        address,
        length: read_u32(header, 4),
        oem_id: ascii(header, 10, 16),
    }
}

/// The RSDP fields the walk needs.
#[derive(Debug, Clone, Copy, PartialEq, Eq, Structural)]
pub struct Rsdp {
    pub revision: u8,
    pub rsdt_address: u32,
    pub xsdt_address: u64,
}

/// Reads the revision (byte 15), RSDT address (bytes 16-19) and XSDT
/// address (bytes 24-31) of an RSDP.
pub fn parse_rsdp(bytes: &[u8]) -> (r: Rsdp)
    requires
        bytes@.len() >= RSDP_LEN,
    ensures
        r.revision == bytes@[15],
        r.rsdt_address == le_u32(bytes@, 16),
        r.xsdt_address == le_u64(bytes@, 24),
{
    Rsdp { revision: bytes[15], rsdt_address: read_u32(bytes, 16), xsdt_address: read_u64(bytes, 24) }
}

/// Where the root table is and how wide its entries are.
#[derive(Debug, Clone, Copy, PartialEq, Eq, Structural)]
pub struct RootTable {
    pub address: u64,
    /// Bytes per entry: 8 for the XSDT, 4 for the RSDT.
    pub entry_size: usize,
}

/// The root table to walk: the XSDT where the revision is 2 or later and
/// an XSDT address is given, otherwise the RSDT where its address is not
/// zero, otherwise none.
pub open spec fn spec_root_table(rsdp: Rsdp) -> Option<RootTable> {
    if rsdp.revision >= 2 && rsdp.xsdt_address != 0 {
        Some(RootTable { address: rsdp.xsdt_address, entry_size: 8 })
    } else if rsdp.rsdt_address != 0 {
        Some(RootTable { address: rsdp.rsdt_address as u64, entry_size: 4 })
    } else {
        None
    }
}

/// Picks the root table the RSDP points at.
pub fn root_table(rsdp: &Rsdp) -> (r: Option<RootTable>)
    ensures
        r == spec_root_table(*rsdp),
{
    if rsdp.revision >= 2 && rsdp.xsdt_address != 0 {
        Some(RootTable { address: rsdp.xsdt_address, entry_size: 8 })
    } else if rsdp.rsdt_address != 0 {
        Some(RootTable { address: rsdp.rsdt_address as u64, entry_size: 4 })
    } else {
        None
    }
}

/// Where a root table's entries lie, and how many bytes they span.
#[derive(Debug, Clone, Copy, PartialEq, Eq, Structural)]
pub struct EntryRegion {
    pub address: u64,
    pub count: usize,
    pub byte_len: usize,
}

/// The entries of `root`, whose header says it is `length` bytes long:
/// right after the header, as many whole entries as the rest holds.
pub fn entry_region(root: &RootTable, length: u32) -> (r: EntryRegion)
    requires
        root.entry_size == 4 || root.entry_size == 8,
        length >= SDT_HEADER_LEN,
        root.address + SDT_HEADER_LEN <= u64::MAX,
    ensures
        r.address == root.address + SDT_HEADER_LEN,
        r.count == (length - SDT_HEADER_LEN) / (root.entry_size as int),
        r.byte_len == r.count * root.entry_size,
        r.byte_len <= length - SDT_HEADER_LEN,
{
    let count = (length as usize - SDT_HEADER_LEN) / root.entry_size;
    proof {
        assert(count * root.entry_size <= length - SDT_HEADER_LEN) by (nonlinear_arith)
            requires
                count == (length - SDT_HEADER_LEN) / (root.entry_size as int),
                root.entry_size > 0,
                length - SDT_HEADER_LEN >= 0,
        ;
    }
    EntryRegion { address: root.address + SDT_HEADER_LEN as u64, count, byte_len: count * root.entry_size }
}

/// Entry `i` of an entry array `width` bytes per entry.
pub open spec fn entry_at(b: Seq<u8>, width: int, i: int) -> u64 {
    if width == 8 {
        le_u64(b, i * 8)
    } else {
        le_u32(b, i * 4) as u64
    }
}

/// The nonzero entries among the first `n` of `b`, in order.
pub open spec fn nonzero_entries(b: Seq<u8>, width: int, n: int) -> Seq<u64>
    decreases n,
{
    if n <= 0 {
        Seq::empty()
    } else {
        let rest = nonzero_entries(b, width, n - 1);
        if entry_at(b, width, n - 1) != 0 {
            rest.push(entry_at(b, width, n - 1))
        } else {
            rest
        }
    }
}

/// The table addresses an entry array lists, zero entries skipped.
pub fn table_addresses(entries: &[u8], entry_size: usize) -> (r: Vec<u64>)
    requires
        entry_size == 4 || entry_size == 8,
    ensures
        r@ == nonzero_entries(entries@, entry_size as int, (entries@.len() as int) / (entry_size as int)),
{
    let n = entries.len();
    let count = n / entry_size;
    let mut r: Vec<u64> = Vec::new();
    let mut i = 0usize;
    while i < count
        invariant
            entry_size == 4 || entry_size == 8,
            count == (entries@.len() as int) / (entry_size as int),
            n == entries@.len(),
            i <= count,
            r@ == nonzero_entries(entries@, entry_size as int, i as int),
        decreases count - i,
    {
        proof {
            assert(i * entry_size + entry_size <= entries@.len()) by (nonlinear_arith)
                requires
                    i < count,
                    count == (entries@.len() as int) / (entry_size as int),
                    entry_size > 0,
            ;
        }
        let off = i * entry_size;
        let addr = if entry_size == 8 {
            read_u64(entries, off)
        } else {
            read_u32(entries, off) as u64
        };
        if addr != 0 {
            r.push(addr);
        }
        i += 1;
    }
    r
}

/// What a firmware configuration table entry is, as far as finding the
/// RSDP goes.
#[derive(Debug, Clone, Copy, PartialEq, Eq, Structural)]
pub enum ConfigTableKind {
    /// The ACPI 2.0 (and later) RSDP entry.
    Acpi2,
    /// The ACPI 1.0 RSDP entry.
    Acpi1,
    /// Any other table.
    Other,
}

/// Address of the first entry of kind `kind`, if any.
pub open spec fn first_of_kind(entries: Seq<(ConfigTableKind, u64)>, kind: ConfigTableKind) -> Option<u64>
    decreases entries.len(),
{
    if entries.len() == 0 {
        None
    } else if entries[0].0 == kind {
        Some(entries[0].1)
    } else {
        first_of_kind(entries.drop_first(), kind)
    }
}

/// The RSDP address the configuration table gives: the ACPI 2.0 entry's if
/// there is one, else the ACPI 1.0 entry's.
pub open spec fn spec_pick_rsdp(entries: Seq<(ConfigTableKind, u64)>) -> Option<u64> {
    match first_of_kind(entries, ConfigTableKind::Acpi2) {
        Some(a) => Some(a),
        None => first_of_kind(entries, ConfigTableKind::Acpi1),
    }
}

/// Address of the first entry of kind `kind` in `entries`.
fn find_kind(entries: &[(ConfigTableKind, u64)], kind: ConfigTableKind) -> (r: Option<u64>)
    ensures
        r == first_of_kind(entries@, kind),
{
    let mut i: usize = 0;
    proof {
        assert(entries@.skip(0) =~= entries@);
    }
    while i < entries.len()
        invariant
            i <= entries.len(),
            first_of_kind(entries@, kind) == first_of_kind(entries@.skip(i as int), kind),
        decreases entries.len() - i,
    {
        let (k, addr) = entries[i];
        proof {
            assert(entries@.skip(i as int).drop_first() =~= entries@.skip(i as int + 1));
        }
        if k == kind {
            return Some(addr);
        }
        i += 1;
    }
    None
}

/// Picks the RSDP from the firmware's configuration table: the ACPI 2.0
/// entry first, then the ACPI 1.0 one; `None` when there is neither.
pub fn pick_rsdp(entries: &[(ConfigTableKind, u64)]) -> (r: Option<u64>)
    ensures
        r == spec_pick_rsdp(entries@),
{
    match find_kind(entries, ConfigTableKind::Acpi2) {
        Some(a) => Some(a),
        None => find_kind(entries, ConfigTableKind::Acpi1),
    }
}

} // verus!
