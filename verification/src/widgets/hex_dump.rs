//! A hex-dump widget in the `xxd` layout: 16 bytes per row, as an address
//! column, the bytes in hex (with an extra gap after the eighth), and an
//! ASCII gutter. The widget lays each row out as styled spans at column
//! offsets; drawing them is left to the terminal library.
use vstd::prelude::*;

use crate::text::{ascii_char, hex, printable, push_char, push_hex, push_str};
use vstd::string::StrSliceExecFns;

verus! {

/// How a span is coloured.
#[derive(Debug, Clone, Copy, PartialEq, Eq, Structural)]
pub enum HexStyle {
    /// The address column, and the blank cells past the end of the data.
    Address,
    /// A zero byte.
    Zero,
    /// Any other byte.
    Hex,
    /// A character of the ASCII gutter.
    Ascii,
}

/// One piece of text placed `x` columns from the left edge of its row.
#[derive(Debug, Clone)]
pub struct HexSpan {
    pub x: usize,
    pub text: String,
    pub style: HexStyle,
}

/// A hex dump of `data`, addressed from `base`.
pub struct HexDump<'a> {
    data: &'a [u8],
    base: usize,
}

/// Number of 16-byte rows `len` bytes fill (the last may be partial).
pub open spec fn row_count(len: nat) -> nat {
    ((len + 15) / 16) as nat
}

/// The bytes of row `row`.
pub open spec fn row_bytes(data: Seq<u8>, row: nat) -> Seq<u8> {
    let start = (row * 16) as int;
    let end = if start + 16 <= data.len() { start + 16 } else { data.len() as int };
    data.subrange(start as int, end)
}

/// The address column of row `row`: the address of its first byte in
/// hex, at least six digits, then two spaces.
pub open spec fn address_text(base: nat, row: nat) -> Seq<char> {
    hex(base + row * 16, 6) + seq![' ', ' ']
}

/// Hex cell `i` of a row holding `chunk`: the byte in two hex digits and a
/// space, or three spaces past the end of the data.
pub open spec fn cell_text(chunk: Seq<u8>, i: int) -> Seq<char> {
    if i < chunk.len() {
        hex(chunk[i] as nat, 2) + seq![' ']
    } else {
        seq![' ', ' ', ' ']
    }
}

/// Style of hex cell `i` of a row holding `chunk`.
pub open spec fn cell_style(chunk: Seq<u8>, i: int) -> HexStyle {
    if i >= chunk.len() {
        HexStyle::Address
    } else if chunk[i] == 0 {
        HexStyle::Zero
    } else {
        HexStyle::Hex
    }
}

/// Column of hex cell `i`, after an address column `a` wide: three
/// columns per cell, one more after the eighth.
pub open spec fn cell_x(a: nat, i: int) -> int {
    a + 3 * i + if i >= 8 { 1int } else { 0int }
}

/// Span `k` of row `row`: the address, then the sixteen hex cells, then
/// one span per byte of the ASCII gutter, which starts two columns after
/// the last cell.
pub open spec fn row_span(data: Seq<u8>, base: nat, row: nat, k: int) -> (int, Seq<char>, HexStyle) {
    let chunk = row_bytes(data, row);
    let a = address_text(base, row).len();
    if k == 0 {
        (0, address_text(base, row), HexStyle::Address)
    } else if k <= 16 {
        (cell_x(a, k - 1), cell_text(chunk, k - 1), cell_style(chunk, k - 1))
    } else {
        (a + 50 + (k - 17), seq![ascii_char(chunk[k - 17])], HexStyle::Ascii)
    }
}

impl<'a> HexDump<'a> {
    /// The bytes dumped.
    pub closed spec fn bytes(self) -> Seq<u8> {
        self.data@
    }

    /// The address printed for the first byte.
    pub closed spec fn base_address(self) -> usize {
        self.base
    }

    /// A dump of `data`, addressed from zero.
    pub fn new(data: &'a [u8]) -> (r: Self)
        ensures
            r.bytes() == data@,
            r.base_address() == 0,
    {
        HexDump { data, base: 0 }
    }

    /// Sets the address printed for the first byte, so a dump of (say) a
    /// disk sector can show real offsets.
    pub fn base(self, base: usize) -> (r: Self)
        ensures
            r.bytes() == self.bytes(),
            r.base_address() == base,
    {
        HexDump { data: self.data, base }
    }

    /// Number of rows the dump takes.
    pub fn rows(&self) -> (r: usize)
        ensures
            r == row_count(self.bytes().len()),
    {
        let n = self.data.len();
        n / 16 + if n % 16 == 0 { 0 } else { 1 }
    }

    /// The spans of row `row`, left to right.
    pub fn row_spans(&self, row: usize) -> (r: Vec<HexSpan>)
        requires
            row < row_count(self.bytes().len()),
            self.base_address() + row * 16 <= usize::MAX,
        ensures
            r@.len() == 17 + row_bytes(self.bytes(), row as nat).len(),
            forall|k: int|
                0 <= k < r@.len() ==> {
                    let (x, text, style) = #[trigger] row_span(self.bytes(), self.base_address() as nat, row as nat, k);
                    &&& r@[k].x == x
                    &&& r@[k].text@ == text
                    &&& r@[k].style == style
                },
    {
        let ghost data = self.data@;
        let ghost chunk = row_bytes(data, row as nat);
        let n = self.data.len();
        proof {
            assert(row * 16 < n) by (nonlinear_arith)
                requires
                    row < (n + 15) / 16,
            ;
        }
        let start = row * 16;
        let end = if n - start >= 16 { start + 16 } else { n };
        let len = end - start;
        assert(chunk.len() == len);

        let mut r: Vec<HexSpan> = Vec::new();
        let mut addr = String::new();
        push_hex(&mut addr, (self.base + start) as u64, 6);
        push_str(&mut addr, "  ");
        proof {
            reveal_strlit("  ");
            assert(addr@ =~= address_text(self.base as nat, row as nat));
        }
        let a = addr.as_str().unicode_len();
        assert(a <= 66) by {
            crate::text::lemma_hex_len_u64((self.base + start) as u64, 6);
        }
        r.push(HexSpan { x: 0, text: addr, style: HexStyle::Address });

        let mut i = 0usize;
        while i < 16
            invariant
                i <= 16,
                a == address_text(self.base as nat, row as nat).len(),
                a <= 66,
                data == self.data@,
                chunk == row_bytes(data, row as nat),
                chunk.len() == len,
                len <= 16,
                start + len <= n,
                n == data.len(),
                forall|j: int| 0 <= j < len ==> chunk[j] == data[start + j],
                r@.len() == 1 + i,
                forall|k: int|
                    0 <= k < r@.len() ==> {
                        let (x, text, style) = #[trigger] row_span(data, self.base as nat, row as nat, k);
                        &&& r@[k].x == x
                        &&& r@[k].text@ == text
                        &&& r@[k].style == style
                    },
            decreases 16 - i,
        {
            let mut cell = String::new();
            let style;
            if i < len {
                let b = self.data[start + i];
                push_hex(&mut cell, b as u64, 2);
                push_char(&mut cell, ' ');
                style = if b == 0 { HexStyle::Zero } else { HexStyle::Hex };
            } else {
                push_str(&mut cell, "   ");
                proof {
                    reveal_strlit("   ");
                }
                style = HexStyle::Address;
            }
            let x = a + 3 * i + if i >= 8 { 1 } else { 0 };
            proof {
                assert(cell@ =~= cell_text(chunk, i as int));
            }
            r.push(HexSpan { x, text: cell, style });
            i += 1;
        }

        let mut j = 0usize;
        while j < len
            invariant
                j <= len,
                a == address_text(self.base as nat, row as nat).len(),
                a <= 66,
                data == self.data@,
                chunk == row_bytes(data, row as nat),
                chunk.len() == len,
                len <= 16,
                start + len <= n,
                n == data.len(),
                forall|m: int| 0 <= m < len ==> chunk[m] == data[start + m],
                r@.len() == 17 + j,
                forall|k: int|
                    0 <= k < r@.len() ==> {
                        let (x, text, style) = #[trigger] row_span(data, self.base as nat, row as nat, k);
                        &&& r@[k].x == x
                        &&& r@[k].text@ == text
                        &&& r@[k].style == style
                    },
            decreases len - j,
        {
            let mut c = String::new();
            push_char(&mut c, printable(self.data[start + j]));
            r.push(HexSpan { x: a + 50 + j, text: c, style: HexStyle::Ascii });
            j += 1;
        }
        r
    }
}

} // verus!
