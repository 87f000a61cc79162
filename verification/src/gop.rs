//! A double-buffered copy of a UEFI Graphics Output Protocol framebuffer:
//! four bytes per pixel in the framebuffer's own channel order (blue first
//! or red first), rows packed at the visible width. Drawing writes this
//! buffer; presenting copies it to the screen, row by row where the screen's
//! rows are padded out to a longer stride.
use vstd::prelude::*;

use crate::display::in_rect;

verus! {

/// Width of a character cell of the text font, in pixels.
pub const FONT_WIDTH: usize = 6;

/// Height of a character cell of the text font, in pixels.
pub const FONT_HEIGHT: usize = 10;

/// The colour's channels in the order the framebuffer stores them.
pub open spec fn channel_order(bgr: bool, r: u8, g: u8, b: u8) -> (u8, u8, u8) {
    if bgr {
        (b, g, r)
    } else {
        (r, g, b)
    }
}

/// Byte `k` (0 to 3) of a pixel that a solid fill paints: a grey fill (all
/// three channels equal) sets all four bytes to that value; any other
/// fill writes the three channels and a zero.
pub open spec fn fill_byte(bgr: bool, r: u8, g: u8, b: u8, k: int) -> u8 {
    let (b0, b1, b2) = channel_order(bgr, r, g, b);
    if b0 == b1 && b1 == b2 {
        b0
    } else if k == 0 {
        b0
    } else if k == 1 {
        b1
    } else if k == 2 {
        b2
    } else {
        0
    }
}

/// One copy of `len` bytes from offset `src` of the buffer to offset `dst`
/// of the screen.
#[derive(Debug, Clone, Copy, PartialEq, Eq, Structural)]
pub struct RowCopy {
    pub src: usize,
    pub dst: usize,
    pub len: usize,
}

/// The copies that present a `width` x `height` frame on a screen whose
/// rows are `stride` pixels apart: one copy of the whole frame when rows
/// are not padded, otherwise one per row.
pub open spec fn present_copies(width: nat, height: nat, stride: nat) -> Seq<RowCopy> {
    if stride == width {
        seq![RowCopy { src: 0, dst: 0, len: (width * height * 4) as usize }]
    } else {
        Seq::new(
            height,
            |y: int| RowCopy { src: (y * width * 4) as usize, dst: (y * stride * 4) as usize, len: (width * 4) as usize },
        )
    }
}

/// The text grid a framebuffer fits: whole character cells across and
/// down, as 16-bit counts.
pub fn text_grid(width: usize, height: usize) -> (r: (u16, u16))
    ensures
        r == ((width / FONT_WIDTH) as u16, (height / FONT_HEIGHT) as u16),
{
    ((width / FONT_WIDTH) as u16, (height / FONT_HEIGHT) as u16)
}

/// The in-memory frame.
pub struct GopDisplay {
    width: usize,
    height: usize,
    stride: usize,
    bgr: bool,
    buffer: Vec<u8>,
}

impl GopDisplay {
    /// The buffer holds four bytes for each of the `width * height` pixels.
    pub closed spec fn wf(self) -> bool {
        self.buffer@.len() == self.width * self.height * 4
    }

    pub closed spec fn width(self) -> usize {
        self.width
    }

    pub closed spec fn height(self) -> usize {
        self.height
    }

    /// Pixels between the starts of consecutive screen rows.
    pub closed spec fn stride(self) -> usize {
        self.stride
    }

    /// The screen stores blue first.
    pub closed spec fn bgr(self) -> bool {
        self.bgr
    }

    /// The frame's bytes.
    pub closed spec fn bytes(self) -> Seq<u8> {
        self.buffer@
    }

    /// A black frame for a screen of `width` x `height` pixels whose rows
    /// are `stride` pixels apart, storing blue first when `bgr`.
    pub fn new(width: usize, height: usize, stride: usize, bgr: bool) -> (r: Self)
        requires
            width * height * 4 <= usize::MAX,
        ensures
            r.wf(),
            r.width() == width,
            r.height() == height,
            r.stride() == stride,
            r.bgr() == bgr,
            r.bytes() == Seq::new((width * height * 4) as nat, |i: int| 0u8),
    {
        proof {
            assert(width * height <= width * height * 4) by (nonlinear_arith);
        }
        let buffer = vec![0u8; width * height * 4];
        proof {
            assert(buffer@ =~= Seq::new((width * height * 4) as nat, |i: int| 0u8));
        }
        GopDisplay { width, height, stride, bgr, buffer }
    }

    /// The frame's bytes, ready to copy to the screen.
    pub fn buffer(&self) -> (r: &[u8])
        ensures
            r@ == self.bytes(),
    {
        self.buffer.as_slice()
    }

    /// Width and height as the drawing library counts them.
    pub fn size(&self) -> (r: (u32, u32))
        ensures
            r == (self.width() as u32, self.height() as u32),
    {
        (self.width as u32, self.height as u32)
    }

    /// The copies that put this frame on the screen.
    pub fn present_plan(&self) -> (r: Vec<RowCopy>)
        requires
            self.wf(),
            self.width() * 4 <= usize::MAX,
            self.height() * self.stride() * 4 <= usize::MAX,
        ensures
            r@ == present_copies(self.width() as nat, self.height() as nat, self.stride() as nat),
    {
        let mut r: Vec<RowCopy> = Vec::new();
        if self.stride == self.width {
            r.push(RowCopy { src: 0, dst: 0, len: self.buffer.len() });
            proof {
                assert(r@ =~= present_copies(self.width as nat, self.height as nat, self.stride as nat));
            }
            return r;
        }
        let total = self.buffer.len();
        let row_bytes = self.width * 4;
        let mut y = 0usize;
        while y < self.height
            invariant
                self.wf(),
                self.height * self.stride * 4 <= usize::MAX,
                total == self.width * self.height * 4,
                self.stride != self.width,
                row_bytes == self.width * 4,
                y <= self.height,
                r@ =~= Seq::new(
                    y as nat,
                    |k: int|
                        RowCopy {
                            src: (k * self.width * 4) as usize,
                            dst: (k * self.stride * 4) as usize,
                            len: (self.width * 4) as usize,
                        },
                ),
            decreases self.height - y,
        {
            proof {
                assert(y * row_bytes <= self.width * self.height * 4) by (nonlinear_arith)
                    requires
                        y < self.height,
                        row_bytes == self.width * 4,
                ;
                assert(y * self.stride * 4 <= self.height * self.stride * 4) by (nonlinear_arith)
                    requires
                        y < self.height,
                ;
                assert(y * self.width * 4 == y * row_bytes) by (nonlinear_arith)
                    requires
                        row_bytes == self.width * 4,
                ;
            }
            r.push(RowCopy { src: y * row_bytes, dst: y * self.stride * 4, len: row_bytes });
            y += 1;
        }
        proof {
            assert(r@ =~= present_copies(self.width as nat, self.height as nat, self.stride as nat));
        }
        r
    }

    /// Sets the pixel at column `x`, row `y` to the colour (`r`, `g`, `b`),
    /// writing its three channel bytes; a pixel outside the frame is
    /// dropped.
    pub fn draw_pixel(&mut self, x: i32, y: i32, r: u8, g: u8, b: u8)
        requires
            old(self).wf(),
        ensures
            final(self).wf(),
            final(self).width() == old(self).width(),
            final(self).height() == old(self).height(),
            final(self).stride() == old(self).stride(),
            final(self).bgr() == old(self).bgr(),
            final(self).bytes() == if 0 <= x < old(self).width() && 0 <= y < old(self).height() {
                let at = (y * old(self).width() + x) * 4;
                let (b0, b1, b2) = channel_order(old(self).bgr(), r, g, b);
                old(self).bytes().update(at, b0).update(at + 1, b1).update(at + 2, b2)
            } else {
                old(self).bytes()
            },
    {
        let n = self.buffer.len();
        if x < 0 || y < 0 {
            return;
        }
        let (xu, yu) = (x as usize, y as usize);
        if xu >= self.width || yu >= self.height {
            return;
        }
        proof {
            assert((yu * self.width + xu) * 4 + 4 <= self.width * self.height * 4) by (nonlinear_arith)
                requires
                    xu < self.width,
                    yu < self.height,
            ;
            assert(yu * self.width <= yu * self.width + xu);
        }
        let at = (yu * self.width + xu) * 4;
        let (b0, b1, b2) = if self.bgr {
            (b, g, r)
        } else {
            (r, g, b)
        };
        self.buffer.set(at, b0);
        self.buffer.set(at + 1, b1);
        self.buffer.set(at + 2, b2);
    }

    /// First column `fill_solid` paints.
    pub open spec fn fill_x0(left: i32) -> int {
        if left < 0 { 0 } else { left as int }
    }

    /// First row `fill_solid` paints.
    pub open spec fn fill_y0(top: i32) -> int {
        if top < 0 { 0 } else { top as int }
    }

    /// Column past the last one `fill_solid` paints.
    pub open spec fn fill_x1(self, left: i32, w: u32) -> int {
        let end = left + (w as i32);
        let lim = self.width() as i32;
        if end < lim { end } else { lim as int }
    }

    /// Row past the last one `fill_solid` paints.
    pub open spec fn fill_y1(self, top: i32, h: u32) -> int {
        let end = top + (h as i32);
        let lim = self.height() as i32;
        if end < lim { end } else { lim as int }
    }

    /// Paints the part of the `w` x `h` rectangle at (`left`, `top`) that
    /// lies inside the frame with the colour (`r`, `g`, `b`); a rectangle
    /// with no pixel inside the frame paints nothing.
    pub fn fill_solid(&mut self, left: i32, top: i32, w: u32, h: u32, r: u8, g: u8, b: u8)
        requires
            old(self).wf(),
            i32::MIN <= left + (w as i32) <= i32::MAX,
            i32::MIN <= top + (h as i32) <= i32::MAX,
        ensures
            final(self).wf(),
            final(self).width() == old(self).width(),
            final(self).height() == old(self).height(),
            final(self).stride() == old(self).stride(),
            final(self).bgr() == old(self).bgr(),
            final(self).bytes() == Seq::new(
                old(self).bytes().len(),
                |i: int|
                    if in_rect(
                        i / 4,
                        old(self).width() as int,
                        Self::fill_x0(left),
                        old(self).fill_x1(left, w),
                        Self::fill_y0(top),
                        old(self).fill_y1(top, h),
                    ) {
                        fill_byte(old(self).bgr(), r, g, b, i % 4)
                    } else {
                        old(self).bytes()[i]
                    },
            ),
    {
        let ghost old_b = self.buffer@;
        let width = self.width;
        let height = self.height;
        let stride = self.stride;
        let bgr = self.bgr;
        let (b0, b1, b2) = if bgr {
            (b, g, r)
        } else {
            (r, g, b)
        };
        let uniform = b0 == b1 && b1 == b2;
        let (p0, p1, p2, p3) = if uniform {
            (b0, b0, b0, b0)
        } else {
            (b0, b1, b2, 0u8)
        };
        let ghost pat = |k: int| fill_byte(bgr, r, g, b, k);
        assert(p0 == pat(0) && p1 == pat(1) && p2 == pat(2) && p3 == pat(3));
        let x0: i32 = if left < 0 { 0 } else { left };
        let y0: i32 = if top < 0 { 0 } else { top };
        let end_x = left + (w as i32);
        let end_y = top + (h as i32);
        let lim_x = width as i32;
        let lim_y = height as i32;
        let x1: i32 = if end_x < lim_x { end_x } else { lim_x };
        let clipped_y1: i32 = if end_y < lim_y { end_y } else { lim_y };
        // An empty column span leaves no row to paint.
        let y1: i32 = if x0 < x1 { clipped_y1 } else { y0 };
        proof {
            assert(lim_x >= 0 ==> (lim_x as usize) <= width) by (bit_vector)
                requires
                    lim_x == width as i32,
            ;
            assert(lim_y >= 0 ==> (lim_y as usize) <= height) by (bit_vector)
                requires
                    lim_y == height as i32,
            ;
        }
        let n = self.buffer.len();
        let mut y = y0;
        while y < y1
            invariant
                self.width == width,
                self.height == height,
                self.stride == stride,
                self.bgr == bgr,
                self.buffer@.len() == width * height * 4,
                old_b.len() == width * height * 4,
                n == width * height * 4,
                p0 == pat(0) && p1 == pat(1) && p2 == pat(2) && p3 == pat(3),
                y0 <= y,
                y == y0 || y <= y1,
                y0 < y1 ==> 0 <= x0 <= x1 <= width,
                y0 < y1 ==> y1 <= height,
                0 <= y0,
                forall|i: int|
                    0 <= i < old_b.len() ==> #[trigger] self.buffer@[i] == if width > 0 && y0 <= (i / 4) / (width as int)
                        < y && x0 <= (i / 4) % (width as int) < x1 {
                        pat(i % 4)
                    } else {
                        old_b[i]
                    },
            decreases y1 - y,
        {
            let row = y as usize;
            let mut x = x0;
            proof {
                assert((row * width + width) * 4 <= width * height * 4) by (nonlinear_arith)
                    requires
                        row < height,
                ;
            }
            while x < x1
                invariant
                    self.width == width,
                    self.height == height,
                    self.stride == stride,
                    self.bgr == bgr,
                    self.buffer@.len() == width * height * 4,
                    old_b.len() == width * height * 4,
                    n == width * height * 4,
                    p0 == pat(0) && p1 == pat(1) && p2 == pat(2) && p3 == pat(3),
                    0 <= x0 <= x <= x1 <= width,
                    y0 <= y < y1,
                    y1 <= height,
                    0 <= y0,
                    row == y,
                    (row * width + width) * 4 <= width * height * 4,
                    forall|i: int|
                        0 <= i < old_b.len() ==> #[trigger] self.buffer@[i] == if width > 0 && ((y0 <= (i / 4) / (
                        width as int) < y && x0 <= (i / 4) % (width as int) < x1) || ((i / 4) / (width as int) == y && x0
                            <= (i / 4) % (width as int) < x)) {
                            pat(i % 4)
                        } else {
                            old_b[i]
                        },
                decreases x1 - x,
            {
                proof {
                    assert(row * width + x < row * width + width);
                }
                let p = row * width + x as usize;
                let at = p * 4;
                proof {
                    assert((p as int) / (width as int) == y && (p as int) % (width as int) == x) by (nonlinear_arith)
                        requires
                            p == row * width + x,
                            0 <= x < width,
                            row == y,
                    ;
                }
                self.buffer.set(at, p0);
                self.buffer.set(at + 1, p1);
                self.buffer.set(at + 2, p2);
                self.buffer.set(at + 3, p3);
                proof {
                    assert forall|j: int| 0 <= j < old_b.len() implies (#[trigger] (j / 4) == p <==> at <= j < at + 4) by {}
                    assert forall|j: int| 0 <= j < old_b.len() && j / 4 != p implies !(#[trigger] ((j / 4) / (
                    width as int)) == y && (j / 4) % (width as int) == x) by {
                        vstd::arithmetic::div_mod::lemma_fundamental_div_mod(j / 4, width as int);
                        vstd::arithmetic::div_mod::lemma_fundamental_div_mod(p as int, width as int);
                    }
                }
                x = x + 1;
            }
            y = y + 1;
        }
        proof {
            assert(y0 < y1 ==> y == y1);
            assert(y0 >= y1 ==> y == y0);
            assert forall|i: int| 0 <= i < old_b.len() implies #[trigger] self.buffer@[i] == if in_rect(
                i / 4,
                width as int,
                x0 as int,
                x1 as int,
                y0 as int,
                y1 as int,
            ) {
                pat(i % 4)
            } else {
                old_b[i]
            } by {
                assert(self.buffer@[i] == if width > 0 && y0 <= (i / 4) / (width as int) < y && x0 <= (i / 4) % (
                width as int) < x1 {
                    pat(i % 4)
                } else {
                    old_b[i]
                });
            }
            assert forall|i: int| 0 <= i < old_b.len() implies #[trigger] in_rect(
                i / 4,
                width as int,
                x0 as int,
                x1 as int,
                y0 as int,
                y1 as int,
            ) == in_rect(i / 4, width as int, x0 as int, x1 as int, y0 as int, clipped_y1 as int) by {}
            assert(self.buffer@ =~= Seq::new(
                old_b.len(),
                |i: int|
                    if in_rect(i / 4, width as int, x0 as int, x1 as int, y0 as int, clipped_y1 as int) {
                        fill_byte(bgr, r, g, b, i % 4)
                    } else {
                        old_b[i]
                    },
            ));
        }
    }
}

} // verus!
