use vstd::prelude::*;
use crate::console::console::{spec_color_value, Cell, Color};
use crate::shared::{BootInfo, FramebufferInfo};

verus! {

pub const FONT_W: usize = 8;
pub const FONT_H: usize = 16;

/// Bytes in the 8x16 bitmap font: 256 glyphs of 16 rows.
pub const FONT_LEN: usize = 4096;

/// The pixel a glyph puts at column `cx` and row `cy` of its 8x16 cell.
pub open spec fn glyph_pixel(font: Seq<u8>, c: char, cx: int, cy: int, fc: Color, bc: Color) -> u32 {
    if font[(c as u8) as int * 16 + cy] & (128u8 >> (cx as u8)) != 0u8 {
        spec_color_value(fc)
    } else {
        spec_color_value(bc)
    }
}

/// A linear frame buffer of `height` rows of `stride` pixels, `width` of them visible.
#[derive(Debug)]
pub struct GopFramebuffer {
    buffer: u64,
    width: usize,
    height: usize,
    stride: usize,
    pixels: Vec<u32>,
    font: Vec<u8>,
}

pub struct FbInfo {
    pub width: usize,
    pub height: usize,
}

impl GopFramebuffer {
    pub closed spec fn pixels(&self) -> Seq<u32> {
        self.pixels@
    }

    pub closed spec fn font(&self) -> Seq<u8> {
        self.font@
    }

    pub closed spec fn buffer(&self) -> u64 {
        self.buffer
    }

    pub closed spec fn width(&self) -> int {
        self.width as int
    }

    pub closed spec fn height(&self) -> int {
        self.height as int
    }

    pub closed spec fn stride(&self) -> int {
        self.stride as int
    }

    /// The pixel at column `x` and row `y`.
    pub open spec fn pixel(&self, x: int, y: int) -> u32 {
        self.pixels()[y * self.stride() + x]
    }

    /// Rows of `stride` pixels, the visible ones within.
    pub closed spec fn wf(&self) -> bool {
        &&& self.width <= self.stride
        &&& self.pixels@.len() == self.stride * self.height
    }

    /// A frame buffer of no pixels and no font.
    pub fn default() -> (r: Self)
        ensures
            r.wf(),
            r.width() == 0,
            r.height() == 0,
            r.stride() == 0,
            r.buffer() == 0,
            r.pixels().len() == 0,
            r.font().len() == 0,
    {
        GopFramebuffer {
            buffer: 0,
            width: 0,
            height: 0,
            stride: 0,
            pixels: Vec::new(),
            font: Vec::new(),
        }
    }

    /// Installs the glyph bitmaps used to draw text.
    pub fn init_font(&mut self, font: Vec<u8>)
        ensures
            final(self).font() == font@,
            final(self).pixels() == old(self).pixels(),
            final(self).width() == old(self).width(),
            final(self).height() == old(self).height(),
            final(self).stride() == old(self).stride(),
            final(self).buffer() == old(self).buffer(),
    {
        self.font = font;
    }

    /// Takes over the frame buffer the loader describes; its pixels start black.
    pub fn from_fb(&mut self, fb: &FramebufferInfo)
        requires
            fb.width <= fb.stride,
            fb.stride * fb.height <= usize::MAX,
        ensures
            final(self).wf(),
            final(self).buffer() == fb.addr,
            final(self).width() == fb.width,
            final(self).height() == fb.height,
            final(self).stride() == fb.stride,
            final(self).font() == old(self).font(),
            final(self).pixels() == Seq::new((fb.stride * fb.height) as nat, |k: int| 0u32),
    {
        self.buffer = fb.addr;
        self.width = fb.width;
        self.height = fb.height;
        self.stride = fb.stride;
        let n = fb.stride * fb.height;
        let mut pixels: Vec<u32> = Vec::new();
        let mut i: usize = 0;
        while i < n
            invariant
                i <= n,
                pixels@ == Seq::new(i as nat, |k: int| 0u32),
            decreases n - i,
        {
            pixels.push(0u32);
            i = i + 1;
            assert(pixels@ =~= Seq::new(i as nat, |k: int| 0u32));
        }
        self.pixels = pixels;
    }

    fn putpixel(&mut self, x: usize, y: usize, color: Color)
        requires
            old(self).wf(),
            x < old(self).width(),
            y < old(self).height(),
        ensures
            final(self).wf(),
            final(self).pixels() == old(self).pixels().update(
                y * old(self).stride() + x,
                spec_color_value(color),
            ),
            final(self).font() == old(self).font(),
            final(self).width() == old(self).width(),
            final(self).height() == old(self).height(),
            final(self).stride() == old(self).stride(),
            final(self).buffer() == old(self).buffer(),
    {
        proof {
            assert(self.stride * self.height == self.pixels.len());
            assert(y * self.stride + x < self.stride * self.height) by (nonlinear_arith)
                requires
                    y < self.height,
                    x < self.width,
                    self.width <= self.stride,
            ;
        }
        let index = y * self.stride + x;
        self.pixels.set(index, color.to_u32());
    }

    /// Draws glyph `c` with its top-left corner at pixel (`x`, `y`).
    fn draw_glyph(&mut self, c: char, x: usize, y: usize, fc: Color, bc: Color)
        requires
            old(self).wf(),
            old(self).font().len() >= FONT_LEN,
            x + FONT_W <= old(self).width(),
            y + FONT_H <= old(self).height(),
        ensures
            final(self).wf(),
            final(self).font() == old(self).font(),
            final(self).width() == old(self).width(),
            final(self).height() == old(self).height(),
            final(self).stride() == old(self).stride(),
            final(self).buffer() == old(self).buffer(),
            forall|px: int, py: int|
                0 <= px < final(self).stride() && 0 <= py < final(self).height() ==> #[trigger] final(self).pixel(px, py) == (if x <= px < x + FONT_W && y <= py < y + FONT_H {
                    glyph_pixel(old(self).font(), c, px - x, py - y, fc, bc)
                } else {
                    old(self).pixel(px, py)
                }),
    {
        let ch: u8 = c as u8;
        let glyph_offset = (ch as usize) * 16;
        let ghost orig = *self;
        let mut cy: usize = 0;
        while cy < 16
            invariant
                orig == *old(self),
                self.wf(),
                self.font@ == orig.font@,
                self.width == orig.width,
                self.height == orig.height,
                self.stride == orig.stride,
                self.buffer == orig.buffer,
                self.font@.len() >= FONT_LEN,
                x + FONT_W <= self.width,
                y + FONT_H <= self.height,
                glyph_offset == (c as u8) as int * 16,
                cy <= 16,
                forall|px: int, py: int|
                    0 <= px < self.stride && 0 <= py < self.height ==> #[trigger] self.pixel(px, py)
                        == (if x <= px < x + FONT_W && y <= py < y + cy {
                        glyph_pixel(orig.font@, c, px - x, py - y, fc, bc)
                    } else {
                        orig.pixel(px, py)
                    }),
            decreases 16 - cy,
        {
            let mut cx: usize = 0;
            while cx < 8
                invariant
                    orig == *old(self),
                    self.wf(),
                    self.font@ == orig.font@,
                    self.width == orig.width,
                    self.height == orig.height,
                    self.stride == orig.stride,
                    self.buffer == orig.buffer,
                    self.font@.len() >= FONT_LEN,
                    x + FONT_W <= self.width,
                    y + FONT_H <= self.height,
                    glyph_offset == (c as u8) as int * 16,
                    cy < 16,
                    cx <= 8,
                    forall|px: int, py: int|
                        0 <= px < self.stride && 0 <= py < self.height ==> #[trigger] self.pixel(px, py)
                            == (if (x <= px < x + FONT_W && y <= py < y + cy) || (x <= px < x + cx
                            && py == y + cy) {
                            glyph_pixel(orig.font@, c, px - x, py - y, fc, bc)
                        } else {
                            orig.pixel(px, py)
                        }),
                decreases 8 - cx,
            {
                let ghost before = *self;
                let bits = self.font[glyph_offset + cy];
                let mask: u8 = 128u8 >> (cx as u8);
                if (bits & mask) != 0 {
                    self.putpixel(x + cx, y + cy, fc);
                } else {
                    self.putpixel(x + cx, y + cy, bc);
                }
                proof {
                    let s = self.stride as int;
                    let h = self.height as int;
                    assert forall|px: int, py: int| 0 <= px < s && 0 <= py < h implies #[trigger] self.pixel(px, py)
                        == (if (x <= px < x + FONT_W && y <= py < y + cy) || (x <= px < x + cx + 1
                        && py == y + cy) {
                        glyph_pixel(orig.font@, c, px - x, py - y, fc, bc)
                    } else {
                        orig.pixel(px, py)
                    }) by {
                        lemma_index_in_range(px, py, s, h);
                        lemma_index_in_range((x + cx) as int, (y + cy) as int, s, h);
                        if px != x + cx || py != y + cy {
                            lemma_index_distinct(px, py, (x + cx) as int, (y + cy) as int, s);
                            assert(self.pixel(px, py) == before.pixel(px, py));
                        }
                    }
                }
                cx = cx + 1;
            }
            cy = cy + 1;
        }
    }

    /// Draws a cell at text column `x`, row `y`.
    pub fn draw_cell(&mut self, x: usize, y: usize, cell: &Cell)
        requires
            old(self).wf(),
            old(self).font().len() >= FONT_LEN,
            (x + 1) * FONT_W <= old(self).width(),
            (y + 1) * FONT_H <= old(self).height(),
        ensures
            final(self).wf(),
            final(self).font() == old(self).font(),
            final(self).width() == old(self).width(),
            final(self).height() == old(self).height(),
            final(self).stride() == old(self).stride(),
            final(self).buffer() == old(self).buffer(),
            forall|px: int, py: int|
                0 <= px < final(self).stride() && 0 <= py < final(self).height() ==> #[trigger] final(self).pixel(px, py) == (if x * FONT_W <= px < (x + 1) * FONT_W && y * FONT_H <= py < (y
                    + 1) * FONT_H {
                    glyph_pixel(old(self).font(), cell.c, px - x * FONT_W, py - y * FONT_H, cell.fg, cell.bg)
                } else {
                    old(self).pixel(px, py)
                }),
    {
        let px = x * 8;
        let py = y * 16;
        self.draw_glyph(cell.c, px, py, cell.fg, cell.bg);
    }

    /// Paints every visible pixel black.
    pub fn clear(&mut self)
        requires
            old(self).wf(),
        ensures
            final(self).wf(),
            final(self).font() == old(self).font(),
            final(self).width() == old(self).width(),
            final(self).height() == old(self).height(),
            final(self).stride() == old(self).stride(),
            final(self).buffer() == old(self).buffer(),
            forall|px: int, py: int|
                0 <= px < final(self).stride() && 0 <= py < final(self).height() ==> #[trigger] final(self).pixel(px, py) == (if px < final(self).width() {
                    0u32
                } else {
                    old(self).pixel(px, py)
                }),
    {
        let ghost orig = *self;
        let mut y: usize = 0;
        while y < self.height
            invariant
                orig == *old(self),
                self.wf(),
                self.font@ == orig.font@,
                self.width == orig.width,
                self.height == orig.height,
                self.stride == orig.stride,
                self.buffer == orig.buffer,
                y <= self.height,
                forall|px: int, py: int|
                    0 <= px < self.stride && 0 <= py < self.height ==> #[trigger] self.pixel(px, py)
                        == (if px < self.width && py < y {
                        0u32
                    } else {
                        orig.pixel(px, py)
                    }),
            decreases self.height - y,
        {
            let mut x: usize = 0;
            while x < self.width
                invariant
                    orig == *old(self),
                    self.wf(),
                    self.font@ == orig.font@,
                    self.width == orig.width,
                    self.height == orig.height,
                    self.stride == orig.stride,
                    self.buffer == orig.buffer,
                    y < self.height,
                    x <= self.width,
                    forall|px: int, py: int|
                        0 <= px < self.stride && 0 <= py < self.height ==> #[trigger] self.pixel(px, py)
                            == (if (px < self.width && py < y) || (px < x && py == y) {
                            0u32
                        } else {
                            orig.pixel(px, py)
                        }),
                decreases self.width - x,
            {
                let ghost before = *self;
                self.putpixel(x, y, Color::Black);
                proof {
                    let s = self.stride as int;
                    let h = self.height as int;
                    assert forall|px: int, py: int| 0 <= px < s && 0 <= py < h implies #[trigger] self.pixel(px, py)
                        == (if (px < self.width && py < y) || (px < x + 1 && py == y) {
                        0u32
                    } else {
                        orig.pixel(px, py)
                    }) by {
                        lemma_index_in_range(px, py, s, h);
                        if px != x || py != y {
                            lemma_index_distinct(px, py, x as int, y as int, s);
                            lemma_index_in_range(x as int, y as int, s, h);
                            assert(self.pixel(px, py) == before.pixel(px, py));
                        }
                    }
                }
                x = x + 1;
            }
            y = y + 1;
        }
    }
}

proof fn lemma_index_in_range(px: int, py: int, s: int, h: int)
    requires
        0 <= px < s,
        0 <= py < h,
    ensures
        0 <= py * s + px < s * h,
{
    assert(0 <= py * s + px < s * h) by (nonlinear_arith)
        requires
            0 <= px < s,
            0 <= py < h,
    ;
}

/// Distinct coordinates within a row of `s` pixels have distinct indices.
proof fn lemma_index_distinct(px: int, py: int, qx: int, qy: int, s: int)
    requires
        0 <= px < s,
        0 <= qx < s,
        0 <= py,
        0 <= qy,
        px != qx || py != qy,
    ensures
        py * s + px != qy * s + qx,
{
    if py == qy {
    } else if py < qy {
        assert(py * s + px < qy * s + qx) by (nonlinear_arith)
            requires
                py < qy,
                0 <= px < s,
                0 <= qx,
        ;
    } else {
        assert(qy * s + qx < py * s + px) by (nonlinear_arith)
            requires
                qy < py,
                0 <= qx < s,
                0 <= px,
        ;
    }
}

/// Takes over the loader's frame buffer and clears it; the loader must describe one.
pub fn init_fb(fb: &mut GopFramebuffer, bi: &BootInfo) -> (r: FbInfo)
    requires
        bi.framebuffer is Some,
        bi.framebuffer->0.width <= bi.framebuffer->0.stride,
        bi.framebuffer->0.stride * bi.framebuffer->0.height <= usize::MAX,
    ensures
        final(fb).wf(),
        r.width == bi.framebuffer->0.width,
        r.height == bi.framebuffer->0.height,
        final(fb).buffer() == bi.framebuffer->0.addr,
        final(fb).width() == r.width,
        final(fb).height() == r.height,
        final(fb).stride() == bi.framebuffer->0.stride,
        final(fb).font() == old(fb).font(),
        forall|k: int| 0 <= k < final(fb).pixels().len() ==> final(fb).pixels()[k] == 0u32,
{
    match &bi.framebuffer {
        Some(info) => {
            fb.from_fb(info);
            fb.clear();
            proof {
                assert forall|k: int| 0 <= k < fb.pixels().len() implies fb.pixels()[k] == 0u32 by {
                    let s = fb.stride();
                    if s == 0 {
                        assert(fb.pixels().len() == 0) by (nonlinear_arith)
                            requires fb.pixels().len() == s * fb.height(), s == 0;
                    }
                    let px = k % s;
                    let py = k / s;
                    assert(k == py * s + px && 0 <= px < s && 0 <= py < fb.height()) by (nonlinear_arith)
                        requires
                            0 <= k < s * fb.height(),
                            s > 0,
                            px == k % s,
                            py == k / s,
                    ;
                    assert(fb.pixel(px, py) == 0u32);
                }
            }
            FbInfo { width: fb.width, height: fb.height }
        },
        None => {
            assert(false);
            FbInfo { width: 0, height: 0 }
        },
    }
}

} // verus!
