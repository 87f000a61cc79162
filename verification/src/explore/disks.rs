//! Block devices as the Block I/O protocol describes them, and how the
//! disks tab lists them.
use vstd::prelude::*;

use crate::screens::{human_size, spec_human_size};
use crate::text::{decimal, push_decimal, push_str};

verus! {

/// What the Block I/O protocol's media description says of one device
/// (the firmware handle it was read from stays with the caller, which
/// reads blocks through it).
#[derive(Debug, Clone, Copy, PartialEq, Eq)]
pub struct DiskDevice {
    pub media_id: u32,
    pub removable: bool,
    pub logical_partition: bool,
    pub read_only: bool,
    pub block_size: u32,
    pub last_block: u64,
}

/// The device's capacity in bytes.
pub open spec fn spec_size_bytes(d: DiskDevice) -> int {
    (d.last_block + 1) * d.block_size
}

/// What kind of device the tab calls it.
pub open spec fn spec_kind(d: DiskDevice) -> Seq<char> {
    if d.logical_partition {
        "partition"@
    } else if d.removable {
        "removable"@
    } else {
        "disk"@
    }
}

impl DiskDevice {
    /// The device's capacity in bytes: its block count times its block
    /// size.
    pub fn size_bytes(&self) -> (r: u64)
        requires
            self.last_block < u64::MAX,
            spec_size_bytes(*self) <= u64::MAX,
        ensures
            r == spec_size_bytes(*self),
    {
        (self.last_block + 1) * self.block_size as u64
    }

    /// `partition` for a logical partition, `removable` for removable
    /// media, `disk` otherwise.
    pub fn kind(&self) -> (r: &'static str)
        ensures
            r@ == spec_kind(*self),
    {
        proof {
            reveal_strlit("partition");
            reveal_strlit("removable");
            reveal_strlit("disk");
        }
        if self.logical_partition {
            "partition"
        } else if self.removable {
            "removable"
        } else {
            "disk"
        }
    }
}

/// The cells of row `index` of the disks table: number, kind, read-only
/// flag, block size, block count, and capacity.
pub fn disk_row(index: usize, d: &DiskDevice) -> (r: Vec<String>)
    requires
        d.last_block < u64::MAX,
        spec_size_bytes(*d) <= u64::MAX,
    ensures
        r@.len() == 6,
        r@[0]@ == decimal(index as nat),
        r@[1]@ == spec_kind(*d),
        r@[2]@ == (if d.read_only { "yes"@ } else { "no"@ }),
        r@[3]@ == decimal(d.block_size as nat),
        r@[4]@ == decimal((d.last_block + 1) as nat),
        r@[5]@ == spec_human_size(spec_size_bytes(*d) as nat),
{
    let mut cells: Vec<String> = Vec::new();
    let mut number = String::new();
    push_decimal(&mut number, index as u64);
    cells.push(number);
    let mut kind = String::new();
    push_str(&mut kind, d.kind());
    cells.push(kind);
    let mut ro = String::new();
    push_str(&mut ro, if d.read_only { "yes" } else { "no" });
    cells.push(ro);
    let mut block = String::new();
    push_decimal(&mut block, d.block_size as u64);
    cells.push(block);
    let size = d.size_bytes();
    let mut blocks = String::new();
    push_decimal(&mut blocks, d.last_block + 1);
    cells.push(blocks);
    cells.push(human_size(size));
    cells
}

} // verus!
