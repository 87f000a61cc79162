//! An in-memory framebuffer of `0RGB` pixels, one `u32` each, row by row:
//! the buffer a desktop window presents as it is. Drawing clips to the
//! buffer, so any pixel or rectangle may be handed in.
use vstd::prelude::*;

verus! {

/// `0RGB` packing of one colour.
pub open spec fn spec_pack(r: u8, g: u8, b: u8) -> u32 {
    (r * 0x10000 + g * 0x100 + b) as u32
}

/// Packs a colour into the `0RGB` layout the buffer holds.
pub fn pack(r: u8, g: u8, b: u8) -> (p: u32)
    ensures
        p == spec_pack(r, g, b),
{
    let (r32, g32, b32) = (r as u32, g as u32, b as u32);
    assert((r32 << 16u32) | (g32 << 8u32) | b32 == r32 * 0x10000 + g32 * 0x100 + b32) by (bit_vector)
        requires
            r32 < 256,
            g32 < 256,
            b32 < 256,
    ;
    (r32 << 16u32) | (g32 << 8u32) | b32
}

/// A `width` x `height` framebuffer.
pub struct MinifbDisplay {
    width: usize,
    height: usize,
    buffer: Vec<u32>,
}

/// `i` lies in the rectangle of columns `[x0, x1)` and rows `[y0, y1)` of
/// a buffer `w` pixels wide.
pub open spec fn in_rect(i: int, w: int, x0: int, x1: int, y0: int, y1: int) -> bool {
    w > 0 && y0 <= i / w < y1 && x0 <= i % w < x1
}

impl MinifbDisplay {
    /// The buffer holds exactly `width * height` pixels.
    pub closed spec fn wf(self) -> bool {
        self.buffer@.len() == self.width * self.height
    }

    /// Width in pixels.
    pub closed spec fn width(self) -> usize {
        self.width
    }

    /// Height in pixels.
    pub closed spec fn height(self) -> usize {
        self.height
    }

    /// The pixels, row by row.
    pub closed spec fn pixels(self) -> Seq<u32> {
        self.buffer@
    }

    /// A black framebuffer of the given size.
    pub fn new(width: usize, height: usize) -> (r: Self)
        requires
            width * height <= usize::MAX,
        ensures
            r.wf(),
            r.width() == width,
            r.height() == height,
            r.pixels() == Seq::new((width * height) as nat, |i: int| 0u32),
    {
        let buffer = vec![0u32; width * height];
        proof {
            assert(buffer@ =~= Seq::new((width * height) as nat, |i: int| 0u32));
        }
        MinifbDisplay { width, height, buffer }
    }

    /// The pixels, ready to hand to the window.
    pub fn buffer(&self) -> (r: &[u32])
        ensures
            r@ == self.pixels(),
    {
        self.buffer.as_slice()
    }

    /// Width and height as the drawing library counts them.
    pub fn size(&self) -> (r: (u32, u32))
        ensures
            r == (self.width() as u32, self.height() as u32),
    {
        (self.width as u32, self.height as u32)
    }

    /// Sets the pixel at column `x`, row `y` to `color`; a pixel outside
    /// the buffer is dropped.
    pub fn draw_pixel(&mut self, x: i32, y: i32, color: u32)
        requires
            old(self).wf(),
        ensures
            final(self).wf(),
            final(self).width() == old(self).width(),
            final(self).height() == old(self).height(),
            final(self).pixels() == if 0 <= x < old(self).width() && 0 <= y < old(self).height() {
                old(self).pixels().update(y * old(self).width() + x, color)
            } else {
                old(self).pixels()
            },
    {
        let n = self.buffer.len();
        if x < 0 || y < 0 {
            return;
        }
        let (xu, yu) = (x as usize, y as usize);
        if xu >= self.width || yu >= self.height {
            return;
        }
        proof {
            assert(yu * self.width + xu < self.width * self.height) by (nonlinear_arith)
                requires
                    xu < self.width,
                    yu < self.height,
            ;
            assert(yu * self.width <= yu * self.width + xu);
        }
        let i = yu * self.width + xu;
        self.buffer.set(i, color);
    }

    /// First column `fill_solid` paints.
    pub open spec fn fill_x0(left: i32) -> int {
        if left < 0 { 0 } else { left as int }
    }

    /// First row `fill_solid` paints.
    pub open spec fn fill_y0(top: i32) -> int {
        if top < 0 { 0 } else { top as int }
    }

    /// Column past the last one `fill_solid` paints.
    pub open spec fn fill_x1(self, left: i32, w: u32) -> int {
        let end = left + (w as i32);
        let lim = self.width() as i32;
        if end < lim { end } else { lim as int }
    }

    /// Row past the last one `fill_solid` paints.
    pub open spec fn fill_y1(self, top: i32, h: u32) -> int {
        let end = top + (h as i32);
        let lim = self.height() as i32;
        if end < lim { end } else { lim as int }
    }

    /// Paints the part of the `w` x `h` rectangle at (`left`, `top`) that
    /// lies inside the buffer with `color`; a rectangle with no pixel
    /// inside the buffer paints nothing.
    pub fn fill_solid(&mut self, left: i32, top: i32, w: u32, h: u32, color: u32)
        requires
            old(self).wf(),
            i32::MIN <= left + (w as i32) <= i32::MAX,
            i32::MIN <= top + (h as i32) <= i32::MAX,
        ensures
            final(self).wf(),
            final(self).width() == old(self).width(),
            final(self).height() == old(self).height(),
            final(self).pixels() == Seq::new(
                old(self).pixels().len(),
                |i: int|
                    if in_rect(
                        i,
                        old(self).width() as int,
                        Self::fill_x0(left),
                        old(self).fill_x1(left, w),
                        Self::fill_y0(top),
                        old(self).fill_y1(top, h),
                    ) {
                        color
                    } else {
                        old(self).pixels()[i]
                    },
            ),
    {
        let ghost old_px = self.buffer@;
        let width = self.width;
        let height = self.height;
        let x0: i32 = if left < 0 { 0 } else { left };
        let y0: i32 = if top < 0 { 0 } else { top };
        let end_x = left + (w as i32);
        let end_y = top + (h as i32);
        let lim_x = width as i32;
        let lim_y = height as i32;
        let x1: i32 = if end_x < lim_x { end_x } else { lim_x };
        let clipped_y1: i32 = if end_y < lim_y { end_y } else { lim_y };
        // An empty column span leaves no row to paint.
        let y1: i32 = if x0 < x1 { clipped_y1 } else { y0 };
        proof {
            assert(lim_x >= 0 ==> (lim_x as usize) <= width) by (bit_vector)
                requires
                    lim_x == width as i32,
            ;
            assert(lim_y >= 0 ==> (lim_y as usize) <= height) by (bit_vector)
                requires
                    lim_y == height as i32,
            ;
        }
        let n = self.buffer.len();
        let mut y = y0;
        while y < y1
            invariant
                self.width == width,
                self.height == height,
                self.buffer@.len() == width * height,
                old_px.len() == width * height,
                n == width * height,
                y0 <= y,
                y == y0 || y <= y1,
                y0 < y1 ==> 0 <= x0 <= x1 <= width,
                y0 < y1 ==> y1 <= height,
                0 <= y0,
                forall|i: int|
                    0 <= i < old_px.len() ==> #[trigger] self.buffer@[i] == if width > 0 && y0 <= i / (width as int) < y
                        && x0 <= i % (width as int) < x1 {
                        color
                    } else {
                        old_px[i]
                    },
            decreases y1 - y,
        {
            let row = y as usize;
            let mut x = x0;
            proof {
                assert(row * width + width <= width * height) by (nonlinear_arith)
                    requires
                        row < height,
                ;
            }
            while x < x1
                invariant
                    self.width == width,
                    self.height == height,
                    self.buffer@.len() == width * height,
                    old_px.len() == width * height,
                    n == width * height,
                    0 <= x0 <= x <= x1 <= width,
                    y0 <= y < y1,
                    y1 <= height,
                    0 <= y0,
                    row == y,
                    row * width + width <= width * height,
                    forall|i: int|
                        0 <= i < old_px.len() ==> #[trigger] self.buffer@[i] == if width > 0 && ((y0 <= i / (width as int)
                            < y && x0 <= i % (width as int) < x1) || (i / (width as int) == y && x0 <= i % (width as int)
                            < x)) {
                            color
                        } else {
                            old_px[i]
                        },
                decreases x1 - x,
            {
                proof {
                    assert(row * width + x < row * width + width);
                }
                let i = row * width + x as usize;
                let ghost before = self.buffer@;
                proof {
                    assert((i as int) / (width as int) == y && (i as int) % (width as int) == x) by (nonlinear_arith)
                        requires
                            i == row * width + x,
                            0 <= x < width,
                            row == y,
                    ;
                }
                self.buffer.set(i, color);
                proof {
                    assert forall|j: int| 0 <= j < old_px.len() && j != i implies !(#[trigger] (j / (width as int)) == y
                        && j % (width as int) == x) by {
                        vstd::arithmetic::div_mod::lemma_fundamental_div_mod(j, width as int);
                        vstd::arithmetic::div_mod::lemma_fundamental_div_mod(i as int, width as int);
                    }
                }
                x = x + 1;
            }
            y = y + 1;
        }
        proof {
            assert(y0 < y1 ==> y == y1);
            assert(y0 >= y1 ==> y == y0);
            assert forall|i: int| 0 <= i < old_px.len() implies #[trigger] self.buffer@[i] == if in_rect(
                i,
                width as int,
                x0 as int,
                x1 as int,
                y0 as int,
                y1 as int,
            ) {
                color
            } else {
                old_px[i]
            } by {
                assert(self.buffer@[i] == if width > 0 && y0 <= i / (width as int) < y && x0 <= i % (width as int) < x1 {
                    color
                } else {
                    old_px[i]
                });
            }
            assert forall|i: int| 0 <= i < old_px.len() implies in_rect(
                i,
                width as int,
                x0 as int,
                x1 as int,
                y0 as int,
                y1 as int,
            ) == in_rect(i, width as int, x0 as int, x1 as int, y0 as int, clipped_y1 as int) by {}
            assert(self.buffer@ =~= Seq::new(
                old_px.len(),
                |i: int|
                    if in_rect(i, width as int, x0 as int, x1 as int, y0 as int, clipped_y1 as int) {
                        color
                    } else {
                        old_px[i]
                    },
            ));
        }
    }
}

} // verus!
