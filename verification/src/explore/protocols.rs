//! Which UEFI and PI protocols the firmware implements: one entry per
//! protocol of a catalog, with how many handles carry it, and the text the
//! features tab shows for it.
use vstd::prelude::*;

use crate::text::{decimal, hex, push_char, push_decimal, push_str};

verus! {

/// A GUID's text form, `xxxxxxxx-xxxx-xxxx-xxxx-xxxxxxxxxxxx` in lowercase
/// hex, from its 16 bytes in memory order: the first three fields are
/// little-endian, so their bytes are written in reverse.
pub open spec fn spec_guid_text(b: Seq<u8>) -> Seq<char> {
    let h = |i: int| hex(b[i] as nat, 2);
    h(3) + h(2) + h(1) + h(0) + seq!['-'] + h(5) + h(4) + seq!['-'] + h(7) + h(6) + seq!['-'] + h(8) + h(9) + seq![
        '-',
    ] + h(10) + h(11) + h(12) + h(13) + h(14) + h(15)
}

/// Writes the GUID with bytes `bytes` (memory order) in its text form,
/// through the GUID type's `Display` (`uguid::Guid::from_bytes`, then
/// `to_ascii_hex_lower`).
#[verifier::external_body]
fn guid_text(bytes: [u8; 16]) -> (r: String)
    ensures
        r@ == spec_guid_text(bytes@),
{
    format!("{}", uefi::Guid::from_bytes(bytes))
}

/// One catalog protocol and how many handles implement it.
#[derive(Debug, Clone)]
pub struct ProtocolStatus {
    pub category: &'static str,
    pub name: &'static str,
    /// The protocol's GUID, its 16 bytes in memory order.
    pub guid: [u8; 16],
    pub description: &'static str,
    pub handle_count: usize,
}

/// The status column: how many handles carry the protocol, or `absent`.
pub open spec fn spec_status_cell(count: usize) -> Seq<char> {
    if count > 0 {
        "present ("@ + decimal(count as nat) + " handle"@ + (if count == 1 { ""@ } else { "s"@ }) + ")"@
    } else {
        "absent"@
    }
}

/// The details dialog: category, name, GUID and status on labelled lines,
/// then a blank line and the description.
pub open spec fn spec_detail_text(p: ProtocolStatus) -> Seq<char> {
    "Category:    "@ + p.category@ + "\n"@ + "Protocol:    "@ + p.name@ + "\n"@ + "GUID:        "@ + spec_guid_text(
        p.guid@,
    ) + "\n"@ + "Status:      "@ + (if p.handle_count > 0 {
        "present -- "@ + decimal(p.handle_count as nat) + " handle(s) implement it"@
    } else {
        "absent -- no handle in the protocol database implements it"@
    }) + "\n"@ + "\n"@ + p.description@
}

impl ProtocolStatus {
    /// At least one handle implements the protocol.
    pub fn present(&self) -> (r: bool)
        ensures
            r == (self.handle_count > 0),
    {
        self.handle_count > 0
    }

    /// The status column of the features table.
    pub fn status_cell(&self) -> (r: String)
        ensures
            r@ == spec_status_cell(self.handle_count),
    {
        let mut s = String::new();
        if self.handle_count > 0 {
            push_str(&mut s, "present (");
            push_decimal(&mut s, self.handle_count as u64);
            push_str(&mut s, " handle");
            push_str(&mut s, if self.handle_count == 1 { "" } else { "s" });
            push_str(&mut s, ")");
        } else {
            push_str(&mut s, "absent");
        }
        s
    }

    /// The text of the details dialog.
    pub fn detail_text(&self) -> (r: String)
        ensures
            r@ == spec_detail_text(*self),
    {
        let mut s = String::new();
        push_str(&mut s, "Category:    ");
        push_str(&mut s, self.category);
        push_str(&mut s, "\n");
        push_str(&mut s, "Protocol:    ");
        push_str(&mut s, self.name);
        push_str(&mut s, "\n");
        push_str(&mut s, "GUID:        ");
        let g = guid_text(self.guid);
        push_str(&mut s, g.as_str());
        push_str(&mut s, "\n");
        push_str(&mut s, "Status:      ");
        if self.handle_count > 0 {
            push_str(&mut s, "present -- ");
            push_decimal(&mut s, self.handle_count as u64);
            push_str(&mut s, " handle(s) implement it");
        } else {
            push_str(&mut s, "absent -- no handle in the protocol database implements it");
        }
        push_str(&mut s, "\n");
        push_char(&mut s, '\n');
        push_str(&mut s, self.description);
        proof {
            assert("\n"@ =~= seq!['\n']) by {
                reveal_strlit("\n");
            }
        }
        s
    }
}

/// How many of `ps` are present.
pub open spec fn present_count(ps: Seq<ProtocolStatus>) -> nat
    decreases ps.len(),
{
    if ps.len() == 0 {
        0
    } else {
        present_count(ps.drop_last()) + if ps.last().handle_count > 0 { 1nat } else { 0nat }
    }
}

/// Counts the protocols some handle implements, for the tab's title.
pub fn count_present(ps: &[ProtocolStatus]) -> (r: usize)
    ensures
        r == present_count(ps@),
{
    let mut k = 0usize;
    let mut i = 0usize;
    while i < ps.len()
        invariant
            i <= ps@.len(),
            k == present_count(ps@.take(i as int)),
            k <= i,
        decreases ps@.len() - i,
    {
        proof {
            assert(ps@.take(i + 1).drop_last() =~= ps@.take(i as int));
        }
        if ps[i].handle_count > 0 {
            k += 1;
        }
        i += 1;
    }
    proof {
        assert(ps@.take(ps@.len() as int) =~= ps@);
    }
    k
}

} // verus!
