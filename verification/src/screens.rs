//! Logic shared by the explorer's tabs: what a key does to a selection, and
//! how sizes and region lists are written out.
use vstd::prelude::*;

pub mod hda;

use crate::explore::acpi::AcpiTableSummary;
use crate::explore::memmap::MemRegion;
use crate::explore::pci::{spec_class_name, PciDevice};
use crate::keys::{Key, CHAR_ENTER, SCAN_DOWN, SCAN_ESCAPE, SCAN_LEFT, SCAN_RIGHT, SCAN_UP};
use crate::text::{
    decimal, digit, digit_char, hex, pad_left, push_char, push_decimal, push_hex, push_padded, push_str,
    str_eq,
};

verus! {

/// What a screen wants the app to do after handling one key.
#[derive(Debug, Clone, Copy, PartialEq, Eq, Structural)]
pub enum Action {
    Continue,
    Quit,
}

/// `lo <= v <= hi` clamped.
pub open spec fn clamp(v: int, lo: int, hi: int) -> int {
    if v < lo {
        lo
    } else if v > hi {
        hi
    } else {
        v
    }
}

/// Moves a table/list selection by `delta`, clamped to `[0, len)`. Shared
/// by every screen with a scrollable table or list. No selection counts as
/// the first row.
pub fn move_selection(selected: Option<usize>, delta: i32, len: usize) -> (r: Option<usize>)
    ensures
        r == if len == 0 {
            None
        } else {
            Some(clamp(selected.unwrap_or(0) + delta, 0, len - 1) as usize)
        },
        r is None <==> len == 0,
        r matches Some(v) ==> v < len,
{
    if len == 0 {
        return None;
    }
    let current = match selected {
        Some(v) => v,
        None => 0,
    };
    let last = len - 1;
    let moved: usize = if delta < 0 {
        let back = (0i64 - delta as i64) as usize;
        if current >= back {
            current - back
        } else {
            0
        }
    } else {
        let forward = delta as usize;
        if current >= last || forward >= last - current {
            last
        } else {
            current + forward
        }
    };
    let clamped = if moved > last {
        last
    } else {
        moved
    };
    Some(clamped)
}

/// `1024^unit` for the units `human_size` uses.
pub open spec fn unit_scale(unit: nat) -> nat {
    if unit == 0 {
        1
    } else if unit == 1 {
        1024
    } else if unit == 2 {
        1024 * 1024
    } else if unit == 3 {
        1024 * 1024 * 1024
    } else {
        1024 * 1024 * 1024 * 1024
    }
}

/// The label of each unit.
pub open spec fn unit_label(unit: nat) -> Seq<char> {
    if unit == 0 {
        "B"@
    } else if unit == 1 {
        "kB"@
    } else if unit == 2 {
        "MB"@
    } else if unit == 3 {
        "GB"@
    } else {
        "TB"@
    }
}

/// The largest unit (up to TB) that `bytes` fills at least once.
pub open spec fn size_unit(bytes: nat) -> nat {
    if bytes >= unit_scale(4) {
        4
    } else if bytes >= unit_scale(3) {
        3
    } else if bytes >= unit_scale(2) {
        2
    } else if bytes >= unit_scale(1) {
        1
    } else {
        0
    }
}

/// `n / d` rounded to the nearest integer, ties to even.
pub open spec fn div_round_even(n: nat, d: nat) -> nat {
    let q = n / d;
    let r = n % d;
    if 2 * r > d || (2 * r == d && q % 2 == 1) {
        q + 1
    } else {
        q
    }
}

/// How far `n` must be shifted right to fit a 53-bit significand.
pub open spec fn significand_shift(n: nat) -> nat
    decreases n,
{
    if n < 0x20_0000_0000_0000 {
        0
    } else {
        1 + significand_shift(n / 2)
    }
}

/// `n` as a double-precision float holds it: rounded to a 53-bit
/// significand, ties to even.
pub open spec fn as_double(n: nat) -> nat {
    let s = significand_shift(n);
    div_round_even(n, vstd::arithmetic::power2::pow2(s)) * vstd::arithmetic::power2::pow2(s)
}

/// A byte count as `human_size` writes it: plain bytes below 1 kB,
/// otherwise the size in the largest unit it fills, to one decimal place
/// (rounded to nearest, ties to even).
pub open spec fn spec_human_size(bytes: nat) -> Seq<char> {
    let unit = size_unit(bytes);
    if unit == 0 {
        decimal(bytes) + " B"@
    } else {
        let tenths = div_round_even(as_double(bytes) * 10, unit_scale(unit));
        decimal(tenths / 10) + "."@ + seq![digit_char(tenths % 10)] + " "@ + unit_label(unit)
    }
}

fn unit_label_str(unit: usize) -> (r: &'static str)
    ensures
        r@ == unit_label(unit as nat),
{
    proof {
        reveal_strlit("B");
        reveal_strlit("kB");
        reveal_strlit("MB");
        reveal_strlit("GB");
        reveal_strlit("TB");
    }
    if unit == 0 {
        "B"
    } else if unit == 1 {
        "kB"
    } else if unit == 2 {
        "MB"
    } else if unit == 3 {
        "GB"
    } else {
        "TB"
    }
}

fn div_round_even_exec(n: u128, d: u128) -> (r: u128)
    requires
        d > 0,
        n / d < u128::MAX,
    ensures
        r == div_round_even(n as nat, d as nat),
{
    let q = n / d;
    let r = n % d;
    proof {
        vstd::arithmetic::div_mod::lemma_mod_bound(n as int, d as int);
    }
    if r > d - r || (r == d - r && q % 2 == 1) {
        q + 1
    } else {
        q
    }
}

proof fn lemma_shift_step(bytes: nat, shift: nat, v: nat)
    requires
        v == bytes / vstd::arithmetic::power2::pow2(shift),
        v >= 0x20_0000_0000_0000,
        bytes < 0x1_0000_0000_0000_0000,
    ensures
        v / 2 == bytes / vstd::arithmetic::power2::pow2(shift + 1),
        significand_shift(v) == 1 + significand_shift(v / 2),
        shift < 11,
{
    vstd::arithmetic::power2::lemma_pow2_pos(shift);
    vstd::arithmetic::power2::lemma_pow2_adds(shift, 1);
    vstd::arithmetic::power2::lemma2_to64();
    let p = vstd::arithmetic::power2::pow2(shift);
    assert(vstd::arithmetic::power2::pow2(1) == 2);
    vstd::arithmetic::div_mod::lemma_div_denominator(bytes as int, p as int, 2);
    if shift >= 11 {
        lemma_pow2_le(11, shift);
        vstd::arithmetic::div_mod::lemma_div_is_ordered_by_denominator(bytes as int, 2048, p as int);
        assert(bytes / 2048 < 0x20_0000_0000_0000) by (nonlinear_arith)
            requires
                bytes < 0x1_0000_0000_0000_0000,
        ;
    }
}

proof fn lemma_pow2_le(a: nat, b: nat)
    requires
        a <= b,
    ensures
        vstd::arithmetic::power2::pow2(a) <= vstd::arithmetic::power2::pow2(b),
{
    if a < b {
        vstd::arithmetic::power2::lemma_pow2_strictly_increases(a, b);
    }
}

/// `bytes` rounded the way converting it to a double rounds it.
fn as_double_exec(bytes: u64) -> (r: u128)
    ensures
        r == as_double(bytes as nat),
        r <= 0x1_0000_0000_0000_0000,
{
    let mut shift: u32 = 0;
    let mut v: u64 = bytes;
    proof {
        vstd::arithmetic::power2::lemma2_to64();
    }
    while v >= 0x20_0000_0000_0000
        invariant
            shift <= 11,
            v == bytes as nat / vstd::arithmetic::power2::pow2(shift as nat),
            significand_shift(bytes as nat) == shift + significand_shift(v as nat),
        decreases v,
    {
        proof {
            lemma_shift_step(bytes as nat, shift as nat, v as nat);
        }
        v = v / 2;
        shift += 1;
    }
    let ghost p = vstd::arithmetic::power2::pow2(shift as nat);
    proof {
        vstd::arithmetic::power2::lemma_pow2_pos(shift as nat);
        vstd::arithmetic::power2::lemma2_to64();
        lemma_pow2_le(shift as nat, 11);
        vstd::arithmetic::power2::lemma_pow2_adds(shift as nat, (64 - shift) as nat);
        assert(significand_shift(v as nat) == 0);
    }
    let small: u64 = 1u64 << shift as u64;
    proof {
        vstd::bits::lemma_u64_shl_is_mul(1, shift as u64);
    }
    let scale: u128 = small as u128;
    let q = div_round_even_exec(bytes as u128, scale);
    proof {
        let big = vstd::arithmetic::power2::pow2((64 - shift) as nat);
        assert(p * big == vstd::arithmetic::power2::pow2(64));
        assert(scale == p);
        vstd::arithmetic::mul::lemma_mul_is_commutative(p as int, big as int);
        assert(big * scale == 0x1_0000_0000_0000_0000);
        vstd::arithmetic::div_mod::lemma_fundamental_div_mod(bytes as int, scale as int);
        let fq = bytes as int / scale as int;
        assert(fq < big) by (nonlinear_arith)
            requires
                fq * scale <= bytes,
                bytes < big * scale,
                scale > 0,
        ;
        assert(q * scale <= 0x1_0000_0000_0000_0000) by (nonlinear_arith)
            requires
                q <= fq + 1,
                fq + 1 <= big,
                big * scale == 0x1_0000_0000_0000_0000,
                scale > 0,
        ;
    }
    q * scale
}

/// Formats a byte count as a human-friendly size, e.g. `4.0 MB`.
/// Uses 1024 as the step between units (so this is really binary/IEC
/// sizing), but keeps the plain `kB`/`MB`/`GB` labels rather than
/// `KiB`/`MiB`/`GiB`.
pub fn human_size(bytes: u64) -> (r: String)
    ensures
        r@ == spec_human_size(bytes as nat),
{
    let unit: usize = if bytes >= 0x100_0000_0000 {
        4
    } else if bytes >= 0x4000_0000 {
        3
    } else if bytes >= 0x10_0000 {
        2
    } else if bytes >= 0x400 {
        1
    } else {
        0
    };
    let mut text = String::new();
    if unit == 0 {
        push_decimal(&mut text, bytes);
        push_str(&mut text, " B");
        return text;
    }
    let scale: u128 = if unit == 1 {
        0x400
    } else if unit == 2 {
        0x10_0000
    } else if unit == 3 {
        0x4000_0000
    } else {
        0x100_0000_0000
    };
    let value = as_double_exec(bytes);
    let tenths = div_round_even_exec(value * 10, scale);
    proof {
        assert((value * 10) as int / scale as int <= (value * 10) as int / 1024) by {
            vstd::arithmetic::div_mod::lemma_div_is_ordered_by_denominator((value * 10) as int, 1024, scale as int);
        }
        assert(tenths / 10 < 0x1_0000_0000_0000_0000);
    }
    push_decimal(&mut text, (tenths / 10) as u64);
    push_str(&mut text, ".");
    push_char(&mut text, digit((tenths % 10) as u64));
    push_str(&mut text, " ");
    push_str(&mut text, unit_label_str(unit));
    proof {
        reveal_strlit(".");
        reveal_strlit(" ");
        assert(text@ =~= spec_human_size(bytes as nat));
    }
    text
}

/// The regions of type `ty`, in order.
pub open spec fn regions_of(regions: Seq<MemRegion>, ty: Seq<char>) -> Seq<MemRegion>
    decreases regions.len(),
{
    if regions.len() == 0 {
        Seq::empty()
    } else {
        let before = regions_of(regions.drop_last(), ty);
        if regions.last().ty@ == ty {
            before.push(regions.last())
        } else {
            before
        }
    }
}

/// One region's line: its start address, page count and size.
pub open spec fn region_line(region: MemRegion) -> Seq<char> {
    "0x"@ + hex(region.phys_start as nat, 16) + "  "@ + pad_left(
        decimal(region.page_count as nat),
        8,
        ' ',
    ) + " pages  "@ + spec_human_size((region.page_count * 4096) as nat)
}

/// The lines of `regions`, one per region, separated by newlines.
pub open spec fn region_lines(regions: Seq<MemRegion>) -> Seq<char>
    decreases regions.len(),
{
    if regions.len() == 0 {
        Seq::empty()
    } else if regions.len() == 1 {
        region_line(regions[0])
    } else {
        region_lines(regions.drop_last()) + "\n"@ + region_line(regions.last())
    }
}

/// How many regions the detail list shows before truncating.
pub open spec fn max_detail_regions() -> nat {
    60
}

/// The regions of type `ty` that the detail list shows.
pub open spec fn shown_regions(regions: Seq<MemRegion>, ty: Seq<char>) -> Seq<MemRegion> {
    let all = regions_of(regions, ty);
    if all.len() > max_detail_regions() {
        all.take(max_detail_regions() as int)
    } else {
        all
    }
}

/// The detail list for type `ty`: a line per region (at most 60), then --
/// when there are more -- a note after a blank line saying how many were
/// left out.
pub open spec fn spec_region_list_text(regions: Seq<MemRegion>, ty: Seq<char>) -> Seq<char> {
    let all = regions_of(regions, ty);
    let shown = region_lines(shown_regions(regions, ty));
    if all.len() > max_detail_regions() {
        shown + "\n\n... and "@ + decimal((all.len() - max_detail_regions()) as nat) + " more"@
    } else {
        shown
    }
}

/// Most individual regions to list in the detail dialog before truncating
/// -- a handful of memory types (e.g. `CONVENTIONAL`) can have hundreds of
/// small fragmented regions, more than a dialog can usefully show anyway.
const MAX_DETAIL_REGIONS: usize = 60;

/// Lists the regions of type `ty`, one per line, at most
/// `MAX_DETAIL_REGIONS` of them, with a note on how many more there are.
pub fn region_list_text(regions: &[MemRegion], ty: &str) -> (r: String)
    requires
        forall|i: int|
            0 <= i < shown_regions(regions@, ty@).len() ==> #[trigger] shown_regions(regions@, ty@)[i].page_count
                * 4096 <= u64::MAX,
    ensures
        r@ == spec_region_list_text(regions@, ty@),
{
    let mut text = String::new();
    let mut count: usize = 0;
    let mut i = 0usize;
    while i < regions.len()
        invariant
            i <= regions@.len(),
            count == regions_of(regions@.take(i as int), ty@).len(),
            count <= i,
            forall|k: int|
                0 <= k < shown_regions(regions@, ty@).len() ==> #[trigger] shown_regions(regions@, ty@)[k].page_count
                    * 4096 <= u64::MAX,
            regions_of(regions@.take(i as int), ty@).len() <= regions_of(regions@, ty@).len(),
            regions_of(regions@.take(i as int), ty@) == regions_of(regions@, ty@).take(count as int),
            text@ == region_lines(
                regions_of(regions@, ty@).take(if count > 60 { 60int } else { count as int }),
            ),
        decreases regions@.len() - i,
    {
        let ghost prefix = regions@.take(i as int);
        let region = &regions[i];
        proof {
            assert(regions@.take(i + 1) =~= prefix.push(*region));
            assert(regions@.take(i + 1).drop_last() =~= prefix);
            lemma_regions_of_prefix(regions@, ty@, i + 1);
        }
        if str_eq(region.ty.as_str(), ty) {
            if count < MAX_DETAIL_REGIONS {
                proof {
                    let all = regions_of(regions@, ty@);
                    let nxt = regions_of(regions@.take(i + 1), ty@);
                    assert(nxt == regions_of(prefix, ty@).push(*region));
                    assert(nxt[count as int] == *region);
                    assert(nxt == all.take(nxt.len() as int));
                    assert(all[count as int] == *region);
                    assert(shown_regions(regions@, ty@)[count as int] == *region);
                }
                if count > 0 {
                    push_str(&mut text, "\n");
                }
                push_line(&mut text, region);
                proof {
                    let all = regions_of(regions@, ty@);
                    let before = all.take(count as int);
                    let after = all.take(count + 1);
                    assert(after.drop_last() =~= before);
                    assert(after.last() == *region);
                    if count == 0 {
                        assert(text@ =~= region_lines(after));
                    } else {
                        assert(text@ =~= region_lines(after));
                    }
                }
            }
            count += 1;
        }
        i += 1;
    }
    proof {
        assert(regions@.take(regions@.len() as int) =~= regions@);
        let all = regions_of(regions@, ty@);
        assert(all.take(count as int) =~= all);
    }
    if count > MAX_DETAIL_REGIONS {
        push_str(&mut text, "\n\n... and ");
        push_decimal(&mut text, (count - MAX_DETAIL_REGIONS) as u64);
        push_str(&mut text, " more");
    }
    proof {
        let all = regions_of(regions@, ty@);
        if count <= 60 {
            assert(all.take(count as int) =~= all);
        }
    }
    text
}

/// The regions of a type among a prefix are a prefix of those among the
/// whole.
proof fn lemma_regions_of_prefix(regions: Seq<MemRegion>, ty: Seq<char>, n: int)
    requires
        0 <= n <= regions.len(),
    ensures
        regions_of(regions.take(n), ty).len() <= regions_of(regions, ty).len(),
        regions_of(regions.take(n), ty) == regions_of(regions, ty).take(
            regions_of(regions.take(n), ty).len() as int,
        ),
    decreases regions.len() - n,
{
    if n == regions.len() {
        assert(regions.take(n) =~= regions);
        assert(regions_of(regions, ty).take(regions_of(regions, ty).len() as int) =~= regions_of(regions, ty));
    } else {
        lemma_regions_of_prefix(regions, ty, n + 1);
        let small = regions.take(n);
        let big = regions.take(n + 1);
        assert(big.drop_last() =~= small);
        let all = regions_of(regions, ty);
        let sb = regions_of(big, ty);
        let ss = regions_of(small, ty);
        if big.last().ty@ == ty {
            assert(sb == ss.push(big.last()));
            assert(ss =~= sb.take(ss.len() as int));
            assert(all.take(ss.len() as int) =~= all.take(sb.len() as int).take(ss.len() as int));
        } else {
            assert(sb == ss);
        }
    }
}

/// Appends one region's line.
fn push_line(text: &mut String, region: &MemRegion)
    requires
        region.page_count * 4096 <= u64::MAX,
    ensures
        final(text)@ == old(text)@ + region_line(*region),
{
    push_str(text, "0x");
    push_hex(text, region.phys_start, 16);
    push_str(text, "  ");
    push_padded(text, region.page_count, 10, 8, ' ');
    push_str(text, " pages  ");
    let size = human_size(region.size_bytes());
    push_str(text, size.as_str());
    proof {
        assert(final(text)@ =~= old(text)@ + region_line(*region));
    }
}

/// What the app does with a key before any tab sees it.
#[derive(Debug, Clone, Copy, PartialEq, Eq, Structural)]
pub enum Binding {
    /// Make tab `0` the active one.
    SwitchTab(usize),
    /// Leave the app.
    Quit,
    /// Hand the key to the active tab.
    Forward,
}

/// The global bindings: left and right arrows cycle through the `count`
/// tabs (wrapping around at both ends), Escape and `q` quit, and every
/// other key goes to the active tab.
pub open spec fn spec_app_binding(tab: usize, count: usize, key: Key) -> Binding {
    if key == Key::Special(SCAN_LEFT) {
        Binding::SwitchTab(((tab + count - 1) % (count as int)) as usize)
    } else if key == Key::Special(SCAN_RIGHT) {
        Binding::SwitchTab(((tab + 1) % (count as int)) as usize)
    } else if key == Key::Special(SCAN_ESCAPE) || key == Key::Printable(0x71) {
        Binding::Quit
    } else {
        Binding::Forward
    }
}

/// Applies the app's global key bindings with tab `tab` of `count` active.
pub fn app_binding(tab: usize, count: usize, key: Key) -> (r: Binding)
    requires
        tab < count,
    ensures
        r == spec_app_binding(tab, count, key),
        r matches Binding::SwitchTab(t) ==> t < count,
{
    match key {
        Key::Special(code) => {
            if code == SCAN_LEFT {
                proof {
                    if tab == 0 {
                        vstd::arithmetic::div_mod::lemma_small_mod((count - 1) as nat, count as nat);
                    } else {
                        vstd::arithmetic::div_mod::lemma_mod_add_multiples_vanish((tab - 1) as int, count as int);
                        vstd::arithmetic::div_mod::lemma_small_mod((tab - 1) as nat, count as nat);
                    }
                }
                Binding::SwitchTab(if tab == 0 { count - 1 } else { tab - 1 })
            } else if code == SCAN_RIGHT {
                proof {
                    if tab + 1 == count {
                        vstd::arithmetic::div_mod::lemma_mod_self_0(count as int);
                    } else {
                        vstd::arithmetic::div_mod::lemma_small_mod((tab + 1) as nat, count as nat);
                    }
                }
                Binding::SwitchTab(if tab + 1 == count { 0 } else { tab + 1 })
            } else if code == SCAN_ESCAPE {
                Binding::Quit
            } else {
                Binding::Forward
            }
        },
        Key::Printable(c) => {
            if c == 0x71 {
                Binding::Quit
            } else {
                Binding::Forward
            }
        },
    }
}

/// Left undoes right, and right undoes left: stepping one tab either way
/// and back returns to the tab started from, wrapping at both ends.
pub proof fn lemma_tab_cycle(tab: usize, count: usize)
    requires
        tab < count,
    ensures
        spec_app_binding(tab, count, Key::Special(SCAN_RIGHT)) matches Binding::SwitchTab(t)
            && spec_app_binding(t, count, Key::Special(SCAN_LEFT)) == Binding::SwitchTab(tab),
        spec_app_binding(tab, count, Key::Special(SCAN_LEFT)) matches Binding::SwitchTab(t)
            && spec_app_binding(t, count, Key::Special(SCAN_RIGHT)) == Binding::SwitchTab(tab),
{
    let l = ((tab + count - 1) % (count as int)) as usize;
    assert(((l + 1) % (count as int)) == tab) by {
        if tab == 0 {
            vstd::arithmetic::div_mod::lemma_small_mod((count - 1) as nat, count as nat);
            assert(l == count - 1);
            vstd::arithmetic::div_mod::lemma_mod_self_0(count as int);
        } else {
            vstd::arithmetic::div_mod::lemma_mod_add_multiples_vanish((tab - 1) as int, count as int);
            vstd::arithmetic::div_mod::lemma_small_mod((tab - 1) as nat, count as nat);
            assert(l == tab - 1);
            vstd::arithmetic::div_mod::lemma_small_mod(tab as nat, count as nat);
        }
    }
    let t = ((tab + 1) % (count as int)) as usize;
    assert(((t + count - 1) % (count as int)) == tab) by {
        if tab + 1 == count {
            vstd::arithmetic::div_mod::lemma_mod_self_0(count as int);
            assert(t == 0);
            vstd::arithmetic::div_mod::lemma_small_mod((count - 1) as nat, count as nat);
        } else {
            vstd::arithmetic::div_mod::lemma_small_mod((tab + 1) as nat, count as nat);
            assert(t == tab + 1);
            vstd::arithmetic::div_mod::lemma_mod_add_multiples_vanish(tab as int, count as int);
            vstd::arithmetic::div_mod::lemma_small_mod(tab as nat, count as nat);
        }
    }
}

/// What Enter does on a table tab.
#[derive(Debug, Clone, Copy, PartialEq, Eq, Structural)]
pub enum EnterAction {
    /// Nothing.
    Nothing,
    /// Opens or closes the details of the selected row.
    ToggleDetail,
    /// Closes an open hex dump, or asks for the selected row's data to
    /// dump.
    ToggleDump,
}

/// A table tab's selection, and whether its detail view (or hex dump) is
/// open.
#[derive(Debug, Clone, Copy, PartialEq, Eq, Structural)]
pub struct TableNav {
    pub selected: Option<usize>,
    pub open: bool,
}

/// A table tab after one key, and the row whose data the tab must fetch
/// for a hex dump, if any.
#[derive(Debug, Clone, Copy, PartialEq, Eq, Structural)]
pub struct NavStep {
    pub next: TableNav,
    pub fetch: Option<usize>,
}

/// Up and down move the selection (closing any detail view); Enter acts
/// as `enter` says; other keys change nothing.
pub open spec fn spec_table_key(nav: TableNav, len: usize, key: Key, enter: EnterAction) -> NavStep {
    let moved = |delta: int|
        NavStep {
            next: TableNav {
                selected: if len == 0 {
                    None
                } else {
                    Some(clamp(nav.selected.unwrap_or(0) + delta, 0, len - 1) as usize)
                },
                open: false,
            },
            fetch: None,
        };
    if key == Key::Special(SCAN_UP) {
        moved(-1)
    } else if key == Key::Special(SCAN_DOWN) {
        moved(1)
    } else if key == Key::Printable(CHAR_ENTER) {
        match enter {
            EnterAction::Nothing => NavStep { next: nav, fetch: None },
            EnterAction::ToggleDetail => NavStep { next: TableNav { selected: nav.selected, open: !nav.open }, fetch: None },
            EnterAction::ToggleDump => if nav.open {
                NavStep { next: TableNav { selected: nav.selected, open: false }, fetch: None }
            } else {
                NavStep {
                    next: nav,
                    fetch: match nav.selected {
                        Some(i) => if i < len { Some(i) } else { None },
                        None => None,
                    },
                }
            },
        }
    } else {
        NavStep { next: nav, fetch: None }
    }
}

/// Handles one key on a table tab of `len` rows.
pub fn table_key(nav: TableNav, len: usize, key: Key, enter: EnterAction) -> (r: NavStep)
    ensures
        r == spec_table_key(nav, len, key, enter),
        r.fetch matches Some(i) ==> i < len,
{
    if key == Key::Special(SCAN_UP) {
        NavStep { next: TableNav { selected: move_selection(nav.selected, -1, len), open: false }, fetch: None }
    } else if key == Key::Special(SCAN_DOWN) {
        NavStep { next: TableNav { selected: move_selection(nav.selected, 1, len), open: false }, fetch: None }
    } else if key == Key::Printable(CHAR_ENTER) {
        match enter {
            EnterAction::Nothing => NavStep { next: nav, fetch: None },
            EnterAction::ToggleDetail => NavStep { next: TableNav { selected: nav.selected, open: !nav.open }, fetch: None },
            EnterAction::ToggleDump => if nav.open {
                NavStep { next: TableNav { selected: nav.selected, open: false }, fetch: None }
            } else {
                let fetch = match nav.selected {
                    Some(i) => if i < len { Some(i) } else { None },
                    None => None,
                };
                NavStep { next: nav, fetch }
            },
        }
    } else {
        NavStep { next: nav, fetch: None }
    }
}

/// Entries of the demonstration menu.
pub const MENU_ITEMS: usize = 3;

/// The demonstration menu's state: selected entry, counter, and message.
#[derive(Debug, Clone, PartialEq, Eq)]
pub struct MenuState {
    pub selected: usize,
    pub counter: i32,
    pub message: String,
}

/// The menu after `key`: up and down move within the three entries
/// (stopping at the ends), Enter on the first entry resets the counter, on
/// the second counts up and greets, and on the third does nothing.
pub fn menu_key(state: MenuState, key: Key) -> (r: MenuState)
    requires
        state.selected < MENU_ITEMS,
        state.selected == 1 ==> state.counter < i32::MAX,
    ensures
        key == Key::Special(SCAN_UP) ==> r.selected == (if state.selected == 0 { 0 } else { state.selected - 1 })
            && r.counter == state.counter && r.message@ == state.message@,
        key == Key::Special(SCAN_DOWN) ==> r.selected == (if state.selected + 1 < MENU_ITEMS {
            state.selected + 1
        } else {
            MENU_ITEMS - 1
        }) && r.counter == state.counter && r.message@ == state.message@,
        key == Key::Printable(CHAR_ENTER) ==> r.selected == state.selected && (if state.selected == 0 {
            r.counter == 0 && r.message@ == "Counter reset"@
        } else if state.selected == 1 {
            r.counter == state.counter + 1 && r.message@ == "Hello from ruefi!"@
        } else {
            r.counter == state.counter && r.message@ == "Nothing happened"@
        }),
        key != Key::Special(SCAN_UP) && key != Key::Special(SCAN_DOWN) && key != Key::Printable(CHAR_ENTER) ==> r.selected
            == state.selected && r.counter == state.counter && r.message@ == state.message@,
        r.selected < MENU_ITEMS,
{
    let MenuState { selected, counter, message } = state;
    if key == Key::Special(SCAN_UP) {
        MenuState { selected: if selected == 0 { 0 } else { selected - 1 }, counter, message }
    } else if key == Key::Special(SCAN_DOWN) {
        MenuState { selected: if selected + 1 < MENU_ITEMS { selected + 1 } else { MENU_ITEMS - 1 }, counter, message }
    } else if key == Key::Printable(CHAR_ENTER) {
        let mut text = String::new();
        if selected == 0 {
            push_str(&mut text, "Counter reset");
            MenuState { selected, counter: 0, message: text }
        } else if selected == 1 {
            push_str(&mut text, "Hello from ruefi!");
            MenuState { selected, counter: counter + 1, message: text }
        } else {
            push_str(&mut text, "Nothing happened");
            MenuState { selected, counter, message: text }
        }
    } else {
        MenuState { selected, counter, message }
    }
}

/// The cells of a PCI table row: location `bb:dd.f`, `vvvv:dddd` ids,
/// class name, and revision as `0xrr`.
pub fn pci_row(d: &PciDevice) -> (r: Vec<String>)
    ensures
        r@.len() == 4,
        r@[0]@ == hex(d.bus as nat, 2) + ":"@ + hex(d.device as nat, 2) + "."@ + decimal(d.function as nat),
        r@[1]@ == hex(d.vendor_id as nat, 4) + ":"@ + hex(d.device_id as nat, 4),
        r@[2]@ == spec_class_name(d.class, d.subclass)@,
        r@[3]@ == "0x"@ + hex(d.revision as nat, 2),
{
    let mut cells: Vec<String> = Vec::new();
    let mut loc = String::new();
    push_hex(&mut loc, d.bus as u64, 2);
    push_str(&mut loc, ":");
    push_hex(&mut loc, d.device as u64, 2);
    push_str(&mut loc, ".");
    push_decimal(&mut loc, d.function as u64);
    cells.push(loc);
    let mut ids = String::new();
    push_hex(&mut ids, d.vendor_id as u64, 4);
    push_str(&mut ids, ":");
    push_hex(&mut ids, d.device_id as u64, 4);
    cells.push(ids);
    let mut class = String::new();
    push_str(&mut class, d.class_name());
    cells.push(class);
    let mut rev = String::new();
    push_str(&mut rev, "0x");
    push_hex(&mut rev, d.revision as u64, 2);
    cells.push(rev);
    cells
}

/// The cells of an ACPI table row: signature, address as `0x` and at
/// least eight hex digits, length, and OEM id.
pub fn acpi_row(t: &AcpiTableSummary) -> (r: Vec<String>)
    ensures
        r@.len() == 4,
        r@[0]@ == t.signature@,
        r@[1]@ == "0x"@ + hex(t.address as nat, 8),
        r@[2]@ == decimal(t.length as nat),
        r@[3]@ == t.oem_id@,
{
    let mut cells: Vec<String> = Vec::new();
    let mut sig = String::new();
    push_str(&mut sig, t.signature.as_str());
    cells.push(sig);
    let mut addr = String::new();
    push_str(&mut addr, "0x");
    push_hex(&mut addr, t.address, 8);
    cells.push(addr);
    let mut len = String::new();
    push_decimal(&mut len, t.length as u64);
    cells.push(len);
    let mut oem = String::new();
    push_str(&mut oem, t.oem_id.as_str());
    cells.push(oem);
    cells
}

/// The cells of a memory-map summary row: type, region count, page count,
/// and the pages' size.
pub fn memory_row(ty: &str, pages: u64, regions: u64) -> (r: Vec<String>)
    requires
        pages * 4096 <= u64::MAX,
    ensures
        r@.len() == 4,
        r@[0]@ == ty@,
        r@[1]@ == decimal(regions as nat),
        r@[2]@ == decimal(pages as nat),
        r@[3]@ == spec_human_size((pages * 4096) as nat),
{
    let mut cells: Vec<String> = Vec::new();
    let mut t = String::new();
    push_str(&mut t, ty);
    cells.push(t);
    let mut n = String::new();
    push_decimal(&mut n, regions);
    cells.push(n);
    let mut p = String::new();
    push_decimal(&mut p, pages);
    cells.push(p);
    cells.push(human_size(pages * 4096));
    cells
}

} // verus!
