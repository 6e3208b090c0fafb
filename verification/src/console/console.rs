use vstd::prelude::*;
use crate::console::gop_framebuffer::{glyph_pixel, GopFramebuffer, FONT_H, FONT_LEN, FONT_W};
use crate::syscall::Winsize;

verus! {

#[derive(Copy, Clone, Debug, PartialEq, Eq, Structural)]
pub enum Color {
    Black,
    White,
    Red,
    Green,
    Blue,
    Yellow,
    Cyan,
    Magenta,
    Gray,
}

/// The 0x00RRGGBB pixel value of a color.
pub open spec fn spec_color_value(c: Color) -> u32 {
    match c {
        Color::Black => 0x00000000,
        Color::White => 0x00FFFFFF,
        Color::Red => 0x00FF0000,
        Color::Green => 0x0000FF00,
        Color::Blue => 0x000000FF,
        Color::Yellow => 0x00FFFF00,
        Color::Cyan => 0x0000FFFF,
        Color::Magenta => 0x00FF00FF,
        Color::Gray => 0x00808080,
    }
}

impl Color {
    pub fn to_u32(self) -> (r: u32)
        ensures
            r == spec_color_value(self),
    {
        match self {
            Color::Black => 0x00000000,
            Color::White => 0x00FFFFFF,
            Color::Red => 0x00FF0000,
            Color::Green => 0x0000FF00,
            Color::Blue => 0x000000FF,
            Color::Yellow => 0x00FFFF00,
            Color::Cyan => 0x0000FFFF,
            Color::Magenta => 0x00FF00FF,
            Color::Gray => 0x00808080,
        }
    }
}

impl From<Color> for u32 {
    fn from(c: Color) -> (r: u32) {
        c.to_u32()
    }
}

impl vstd::std_specs::convert::FromSpecImpl<Color> for u32 {
    open spec fn obeys_from_spec() -> bool {
        true
    }

    open spec fn from_spec(v: Color) -> u32 {
        spec_color_value(v)
    }
}

impl Default for Color {
    fn default() -> (r: Self)
        ensures
            r == Color::Black,
    {
        Color::Black
    }
}

pub const DEFAULT_COLOR_BG: Color = Color::Black;

pub const DEFAULT_COLOR_FG: Color = Color::Gray;

#[derive(Clone, Copy, Debug, PartialEq, Eq, Structural)]
pub struct Cell {
    pub c: char,
    pub fg: Color,
    pub bg: Color,
    pub dirty: bool,
}

/// A cell in the default colors.
pub open spec fn plain_cell(c: char, dirty: bool) -> Cell {
    Cell { c, fg: Color::Gray, bg: Color::Black, dirty }
}

/// The same cell, marked for redrawing.
pub open spec fn dirtied(c: Cell) -> Cell {
    Cell { dirty: true, ..c }
}

impl Cell {
    pub fn new(c: char, dirty: bool) -> (r: Self)
        ensures
            r == plain_cell(c, dirty),
    {
        Self { c, fg: DEFAULT_COLOR_FG, bg: DEFAULT_COLOR_BG, dirty }
    }

    pub fn empty() -> (r: Self)
        ensures
            r == plain_cell(' ', false),
    {
        Self { c: ' ', fg: DEFAULT_COLOR_FG, bg: DEFAULT_COLOR_BG, dirty: false }
    }
}

impl Default for Cell {
    fn default() -> (r: Self)
        ensures
            r == plain_cell(' ', false),
    {
        Cell::empty()
    }
}

/// The grid after scrolling up by `lines`: rows move up, blank rows enter at the
/// bottom, and every cell is marked for redrawing.
pub open spec fn scrolled(cells: Seq<Cell>, rows: int, cols: int, lines: int) -> Seq<Cell> {
    let shift = if lines < rows { lines } else { rows };
    Seq::new(
        cells.len(),
        |k: int|
            if k < (rows - shift) * cols {
                dirtied(cells[k + shift * cols])
            } else {
                plain_cell(' ', true)
            },
    )
}

/// The same cell, drawn.
pub open spec fn cleaned(c: Cell) -> Cell {
    Cell { dirty: false, ..c }
}

/// The cell at text column `x`, row `y` of a grid `cols` wide.
pub open spec fn cell_at(cells: Seq<Cell>, cols: int, x: int, y: int) -> Cell {
    cells[y * cols + x]
}

/// What flushing leaves at pixel (`px`, `py`): the glyph of a cell that needed
/// redrawing, otherwise the pixel as it was.
pub open spec fn flushed_pixel(
    cells: Seq<Cell>,
    rows: int,
    cols: int,
    font: Seq<u8>,
    px: int,
    py: int,
    before: u32,
) -> u32 {
    if px < cols * FONT_W && py < rows * FONT_H && cell_at(cells, cols, px / 8, py / 16).dirty {
        let cell = cell_at(cells, cols, px / 8, py / 16);
        glyph_pixel(font, cell.c, px % 8, py % 16, cell.fg, cell.bg)
    } else {
        before
    }
}

/// Console contents, cursor and redraw flag: (cells, cursor_x, cursor_y, dirty).
pub type ConsoleModel = (Seq<Cell>, int, int, bool);

/// Moving to the start of the next line, scrolling by one line at the bottom.
pub open spec fn newline_model(m: ConsoleModel, rows: int, cols: int) -> ConsoleModel {
    if m.2 + 1 >= rows {
        (scrolled(m.0, rows, cols, 1), 0, rows - 1, true)
    } else {
        (m.0, 0, m.2 + 1, m.3)
    }
}

/// Writing one character at the cursor.
pub open spec fn putchar_model(m: ConsoleModel, rows: int, cols: int, ch: char) -> ConsoleModel {
    if ch == '\n' {
        let n = newline_model(m, rows, cols);
        (n.0, n.1, n.2, true)
    } else {
        let m1 = if m.1 >= cols { newline_model(m, rows, cols) } else { m };
        let cells = m1.0.update(m1.2 * cols + m1.1, plain_cell(ch, true));
        let m2 = (cells, m1.1 + 1, m1.2, m1.3);
        let m3 = if m2.1 >= cols { newline_model(m2, rows, cols) } else { m2 };
        (m3.0, m3.1, m3.2, true)
    }
}

/// Erasing the character before the cursor.
pub open spec fn backspace_model(m: ConsoleModel, cols: int) -> ConsoleModel {
    let x0 = if m.1 >= cols && cols != 0 { cols - 1 } else { m.1 };
    if x0 == 0 && m.2 == 0 {
        (m.0, x0, m.2, m.3)
    } else {
        let (x, y) = if x0 > 0 { (x0 - 1, m.2) } else { (cols - 1, m.2 - 1) };
        (m.0.update(y * cols + x, plain_cell(' ', true)), x, y, true)
    }
}

/// A text grid of `rows` by `cols` cells with a cursor.
#[derive(Debug)]
pub struct Console {
    cells: Vec<Cell>,
    rows: usize,
    cols: usize,
    pub cursor_x: usize,
    pub cursor_y: usize,
    pub dirty: bool,
    xpixel: usize,
    ypixel: usize,
}

impl Console {
    pub closed spec fn cells(&self) -> Seq<Cell> {
        self.cells@
    }

    pub closed spec fn rows(&self) -> int {
        self.rows as int
    }

    pub closed spec fn cols(&self) -> int {
        self.cols as int
    }

    pub closed spec fn xpixel(&self) -> int {
        self.xpixel as int
    }

    pub closed spec fn ypixel(&self) -> int {
        self.ypixel as int
    }

    pub closed spec fn model(&self) -> ConsoleModel {
        (self.cells(), self.cursor_x as int, self.cursor_y as int, self.dirty)
    }

    /// The grid holds one cell per row and column.
    pub closed spec fn wf(&self) -> bool {
        self.cells@.len() == self.rows * self.cols
    }

    /// A well-formed console has one cell for each of its rows and columns.
    pub proof fn lemma_grid(&self)
        requires
            self.wf(),
        ensures
            self.cells().len() == self.rows() * self.cols(),
            self.rows() >= 0,
            self.cols() >= 0,
    {
    }

    /// A console for a screen of `xpixel` by `ypixel` pixels, one cell per glyph.
    pub fn new(xpixel: usize, ypixel: usize) -> (r: Self)
        requires
            (ypixel / FONT_H) * (xpixel / FONT_W) <= usize::MAX,
        ensures
            r.wf(),
            r.rows() == ypixel / FONT_H,
            r.cols() == xpixel / FONT_W,
            r.xpixel() == xpixel,
            r.ypixel() == ypixel,
            r.model() == (
                Seq::new((r.rows() * r.cols()) as nat, |k: int| plain_cell(' ', false)),
                0int,
                0int,
                false,
            ),
    {
        let rows = ypixel / FONT_H;
        let cols = xpixel / FONT_W;
        let size = rows * cols;
        let mut cells: Vec<Cell> = Vec::new();
        let mut i: usize = 0;
        while i < size
            invariant
                i <= size,
                cells@ == Seq::new(i as nat, |k: int| plain_cell(' ', false)),
            decreases size - i,
        {
            cells.push(Cell::default());
            i = i + 1;
            assert(cells@ =~= Seq::new(i as nat, |k: int| plain_cell(' ', false)));
        }
        Console { cells, rows, cols, cursor_x: 0, cursor_y: 0, dirty: false, xpixel, ypixel }
    }

    /// Installs a new blank console for a screen of `xpixel` by `ypixel` pixels.
    pub fn init_console(slot: &mut Option<Console>, xpixel: usize, ypixel: usize)
        requires
            (ypixel / FONT_H) * (xpixel / FONT_W) <= usize::MAX,
        ensures
            final(slot).is_some(),
            ({
                let c = final(slot).unwrap();
                &&& c.wf()
                &&& c.rows() == ypixel / FONT_H && c.cols() == xpixel / FONT_W
                &&& c.xpixel() == xpixel && c.ypixel() == ypixel
                &&& c.model() == (
                    Seq::new((c.rows() * c.cols()) as nat, |k: int| plain_cell(' ', false)),
                    0int,
                    0int,
                    false,
                )
            }),
    {
        *slot = Some(Console::new(xpixel, ypixel));
    }

    pub fn get_winsize(&self) -> (r: Winsize)
        ensures
            r.rows == self.rows() as i16,
            r.cols == self.cols() as i16,
            r.xpixel == self.xpixel() as i16,
            r.ypixel == self.ypixel() as i16,
    {
        Winsize {
            rows: self.rows as i16,
            cols: self.cols as i16,
            xpixel: self.xpixel as i16,
            ypixel: self.ypixel as i16,
        }
    }

    fn newline(&mut self)
        requires
            old(self).wf(),
            old(self).rows() > 0,
            old(self).model().2 < usize::MAX,
        ensures
            final(self).wf(),
            final(self).rows() == old(self).rows(),
            final(self).cols() == old(self).cols(),
            final(self).xpixel() == old(self).xpixel(),
            final(self).ypixel() == old(self).ypixel(),
            final(self).model() == newline_model(old(self).model(), old(self).rows(), old(self).cols()),
    {
        self.cursor_x = 0;
        self.cursor_y = self.cursor_y + 1;
        if self.cursor_y >= self.rows {
            self.scroll_up(1);
            self.cursor_y = self.rows - 1;
        }
    }

    fn mark_all_dirty(&mut self)
        requires
            old(self).wf(),
        ensures
            final(self).wf(),
            final(self).rows() == old(self).rows(),
            final(self).cols() == old(self).cols(),
            final(self).xpixel() == old(self).xpixel(),
            final(self).ypixel() == old(self).ypixel(),
            final(self).model() == (
                Seq::new(old(self).cells().len(), |k: int| dirtied(old(self).cells()[k])),
                old(self).model().1,
                old(self).model().2,
                true,
            ),
    {
        let ghost orig = self.cells@;
        let mut i: usize = 0;
        while i < self.cells.len()
            invariant
                orig == old(self).cells@,
                self.rows == old(self).rows,
                self.cols == old(self).cols,
                self.xpixel == old(self).xpixel,
                self.ypixel == old(self).ypixel,
                self.cursor_x == old(self).cursor_x,
                self.cursor_y == old(self).cursor_y,
                self.cells@.len() == orig.len(),
                i <= orig.len(),
                forall|k: int| 0 <= k < i ==> self.cells@[k] == dirtied(orig[k]),
                forall|k: int| i <= k < orig.len() ==> self.cells@[k] == orig[k],
            decreases orig.len() - i,
        {
            let mut cell = self.cells[i];
            cell.dirty = true;
            self.cells.set(i, cell);
            i = i + 1;
        }
        self.dirty = true;
        assert(self.cells@ =~= Seq::new(orig.len(), |k: int| dirtied(orig[k])));
    }

    fn scroll_up(&mut self, lines: usize)
        requires
            old(self).wf(),
        ensures
            final(self).wf(),
            final(self).rows() == old(self).rows(),
            final(self).cols() == old(self).cols(),
            final(self).xpixel() == old(self).xpixel(),
            final(self).ypixel() == old(self).ypixel(),
            final(self).model() == (
                scrolled(old(self).cells(), old(self).rows(), old(self).cols(), lines as int),
                old(self).model().1,
                old(self).model().2,
                true,
            ),
    {
        let cols = self.cols;
        let rows = self.rows;
        let shift = if lines < rows { lines } else { rows };
        let ghost orig = self.cells@;
        proof {
            assert(rows * cols == self.cells.len());
            assert((rows - shift) * cols <= rows * cols) by (nonlinear_arith)
                requires shift <= rows;
            assert(shift * cols <= rows * cols) by (nonlinear_arith)
                requires shift <= rows;
            assert((rows - shift) * cols + shift * cols == rows * cols) by (nonlinear_arith);
        }
        let keep = (rows - shift) * cols;
        let offset = shift * cols;
        let len = self.cells.len();
        let mut k: usize = 0;
        while k < keep
            invariant
                orig == old(self).cells@,
                self.rows == rows,
                self.cols == cols,
                self.xpixel == old(self).xpixel,
                self.ypixel == old(self).ypixel,
                self.cursor_x == old(self).cursor_x,
                self.cursor_y == old(self).cursor_y,
                len == orig.len(),
                self.cells@.len() == len,
                keep + offset == len,
                k <= keep,
                forall|j: int| 0 <= j < k ==> self.cells@[j] == orig[j + offset],
                forall|j: int| k <= j < len ==> self.cells@[j] == orig[j],
            decreases keep - k,
        {
            let c = self.cells[k + offset];
            self.cells.set(k, c);
            k = k + 1;
        }
        let mut k: usize = keep;
        while k < len
            invariant
                orig == old(self).cells@,
                self.rows == rows,
                self.cols == cols,
                self.xpixel == old(self).xpixel,
                self.ypixel == old(self).ypixel,
                self.cursor_x == old(self).cursor_x,
                self.cursor_y == old(self).cursor_y,
                len == orig.len(),
                self.cells@.len() == len,
                keep + offset == len,
                keep <= k <= len,
                forall|j: int| 0 <= j < keep ==> self.cells@[j] == orig[j + offset],
                forall|j: int| keep <= j < k ==> self.cells@[j] == plain_cell(' ', true),
            decreases len - k,
        {
            let mut cell = Cell::empty();
            cell.dirty = true;
            self.cells.set(k, cell);
            k = k + 1;
        }
        self.mark_all_dirty();
        assert(self.cells@ =~= scrolled(orig, rows as int, cols as int, lines as int));
    }

    /// Draws every cell that needs redrawing and marks it drawn.
    #[verifier::rlimit(60)]
    pub fn flush(&mut self, fb: &mut GopFramebuffer)
        requires
            old(self).wf(),
            old(fb).wf(),
            old(fb).font().len() >= FONT_LEN,
            old(self).cols() * FONT_W <= old(fb).width(),
            old(self).rows() * FONT_H <= old(fb).height(),
        ensures
            final(self).wf(),
            final(self).rows() == old(self).rows(),
            final(self).cols() == old(self).cols(),
            final(self).xpixel() == old(self).xpixel(),
            final(self).ypixel() == old(self).ypixel(),
            final(self).model() == (
                Seq::new(old(self).cells().len(), |k: int| cleaned(old(self).cells()[k])),
                old(self).model().1,
                old(self).model().2,
                old(self).model().3,
            ),
            final(fb).wf(),
            final(fb).font() == old(fb).font(),
            final(fb).width() == old(fb).width(),
            final(fb).height() == old(fb).height(),
            final(fb).stride() == old(fb).stride(),
            final(fb).buffer() == old(fb).buffer(),
            forall|px: int, py: int|
                0 <= px < final(fb).stride() && 0 <= py < final(fb).height() ==> #[trigger] final(fb).pixel(px, py)
                    == flushed_pixel(
                    old(self).cells(),
                    old(self).rows(),
                    old(self).cols(),
                    old(fb).font(),
                    px,
                    py,
                    old(fb).pixel(px, py),
                ),
    {
        let ghost orig = *self;
        let ghost ofb = *fb;
        let rows = self.rows;
        let cols = self.cols;
        let mut y: usize = 0;
        while y < rows
            invariant
                orig == *old(self),
                ofb == *old(fb),
                rows == orig.rows,
                cols == orig.cols,
                self.rows == rows,
                self.cols == cols,
                self.xpixel == orig.xpixel,
                self.ypixel == orig.ypixel,
                self.cursor_x == orig.cursor_x,
                self.cursor_y == orig.cursor_y,
                self.dirty == orig.dirty,
                self.cells@.len() == rows * cols,
                fb.wf(),
                fb.font() == ofb.font(),
                fb.width() == ofb.width(),
                fb.height() == ofb.height(),
                fb.stride() == ofb.stride(),
                fb.buffer() == ofb.buffer(),
                ofb.font().len() >= FONT_LEN,
                cols * FONT_W <= ofb.width(),
                rows * FONT_H <= ofb.height(),
                y <= rows,
                forall|i: int, j: int|
                    0 <= i < cols && 0 <= j < rows ==> #[trigger] cell_at(self.cells@, cols as int, i, j)
                        == (if j < y {
                        cleaned(cell_at(orig.cells@, cols as int, i, j))
                    } else {
                        cell_at(orig.cells@, cols as int, i, j)
                    }),
                forall|px: int, py: int|
                    0 <= px < fb.stride() && 0 <= py < fb.height() ==> #[trigger] fb.pixel(px, py) == (
                    if py < y * FONT_H {
                        flushed_pixel(orig.cells@, rows as int, cols as int, ofb.font(), px, py, ofb.pixel(px, py))
                    } else {
                        ofb.pixel(px, py)
                    }),
            decreases rows - y,
        {
            let mut x: usize = 0;
            while x < cols
                invariant
                    orig == *old(self),
                    ofb == *old(fb),
                    rows == orig.rows,
                    cols == orig.cols,
                    self.rows == rows,
                    self.cols == cols,
                    self.xpixel == orig.xpixel,
                    self.ypixel == orig.ypixel,
                    self.cursor_x == orig.cursor_x,
                    self.cursor_y == orig.cursor_y,
                    self.dirty == orig.dirty,
                    self.cells@.len() == rows * cols,
                    fb.wf(),
                    fb.font() == ofb.font(),
                    fb.width() == ofb.width(),
                    fb.height() == ofb.height(),
                    fb.stride() == ofb.stride(),
                    fb.buffer() == ofb.buffer(),
                    ofb.font().len() >= FONT_LEN,
                    cols * FONT_W <= ofb.width(),
                    rows * FONT_H <= ofb.height(),
                    y < rows,
                    x <= cols,
                    forall|i: int, j: int|
                        0 <= i < cols && 0 <= j < rows ==> #[trigger] cell_at(self.cells@, cols as int, i, j)
                            == (if j < y || (j == y && i < x) {
                            cleaned(cell_at(orig.cells@, cols as int, i, j))
                        } else {
                            cell_at(orig.cells@, cols as int, i, j)
                        }),
                    forall|px: int, py: int|
                        0 <= px < fb.stride() && 0 <= py < fb.height() ==> #[trigger] fb.pixel(px, py) == (
                        if py < y * FONT_H || (py < (y + 1) * FONT_H && px < x * FONT_W) {
                            flushed_pixel(orig.cells@, rows as int, cols as int, ofb.font(), px, py, ofb.pixel(px, py))
                        } else {
                            ofb.pixel(px, py)
                        }),
                decreases cols - x,
            {
                proof {
                    assert(y * cols + x < rows * cols) by (nonlinear_arith)
                        requires y < rows, x < cols;
                    assert(rows * cols == self.cells.len());
                    assert((x + 1) * FONT_W <= cols * FONT_W) by (nonlinear_arith)
                        requires x < cols;
                    assert((y + 1) * FONT_H <= rows * FONT_H) by (nonlinear_arith)
                        requires y < rows;
                }
                let idx = y * cols + x;
                let cell = self.cells[idx];
                assert(cell == cell_at(self.cells@, cols as int, x as int, y as int));
                assert(cell == cell_at(orig.cells@, cols as int, x as int, y as int));
                let ghost fb_before = *fb;
                let ghost cells_before = self.cells@;
                if cell.dirty {
                    fb.draw_cell(x, y, &cell);
                    let mut c2 = cell;
                    c2.dirty = false;
                    self.cells.set(idx, c2);
                }
                proof {
                    assert forall|i: int, j: int| 0 <= i < cols && 0 <= j < rows implies #[trigger] cell_at(
                        self.cells@,
                        cols as int,
                        i,
                        j,
                    ) == (if j < y || (j == y && i < x + 1) {
                        cleaned(cell_at(orig.cells@, cols as int, i, j))
                    } else {
                        cell_at(orig.cells@, cols as int, i, j)
                    }) by {
                        assert(0 <= j * cols + i < rows * cols) by (nonlinear_arith)
                            requires 0 <= i < cols, 0 <= j < rows;
                        if i != x || j != y {
                            lemma_grid_index_distinct(i, j, x as int, y as int, cols as int);
                            assert(cell_at(self.cells@, cols as int, i, j) == cell_at(cells_before, cols as int, i, j));
                        }
                    }
                    assert forall|px: int, py: int| 0 <= px < fb.stride() && 0 <= py < fb.height() implies #[trigger] fb.pixel(px, py) == (
                        if py < y * FONT_H || (py < (y + 1) * FONT_H && px < (x + 1) * FONT_W) {
                            flushed_pixel(orig.cells@, rows as int, cols as int, ofb.font(), px, py, ofb.pixel(px, py))
                        } else {
                            ofb.pixel(px, py)
                        }) by {
                        assert(fb_before.pixel(px, py) == (
                            if py < y * FONT_H || (py < (y + 1) * FONT_H && px < x * FONT_W) {
                                flushed_pixel(orig.cells@, rows as int, cols as int, ofb.font(), px, py, ofb.pixel(px, py))
                            } else {
                                ofb.pixel(px, py)
                            }));
                        if x * FONT_W <= px < (x + 1) * FONT_W && y * FONT_H <= py < (y + 1) * FONT_H {
                            assert(px / 8 == x && py / 16 == y);
                            assert(px % 8 == px - x * FONT_W && py % 16 == py - y * FONT_H);
                        }
                    }
                }
                x = x + 1;
            }
            y = y + 1;
        }
        proof {
            assert(self.cells@ =~= Seq::new(orig.cells@.len(), |k: int| cleaned(orig.cells@[k]))) by {
                assert forall|k: int| 0 <= k < self.cells@.len() implies self.cells@[k] == cleaned(orig.cells@[k]) by {
                    let i = k % (cols as int);
                    let j = k / (cols as int);
                    assert(k == j * cols + i && 0 <= i < cols && 0 <= j < rows) by (nonlinear_arith)
                        requires
                            0 <= k < rows * cols,
                            cols > 0,
                            i == k % (cols as int),
                            j == k / (cols as int),
                    ;
                    assert(cell_at(self.cells@, cols as int, i, j) == cleaned(cell_at(orig.cells@, cols as int, i, j)));
                }
            }
        }
    }

    /// Writes one character at the cursor; a newline moves to the next line.
    pub fn putchar(&mut self, ch: char)
        requires
            old(self).wf(),
            old(self).rows() > 0,
            old(self).model().2 < old(self).rows(),
            ch != '\n' ==> old(self).cols() > 0,
        ensures
            final(self).wf(),
            final(self).rows() == old(self).rows(),
            final(self).cols() == old(self).cols(),
            final(self).xpixel() == old(self).xpixel(),
            final(self).ypixel() == old(self).ypixel(),
            final(self).model().2 < final(self).rows(),
            final(self).cols() > 0 ==> 0 <= final(self).model().1 < final(self).cols(),
            final(self).model() == putchar_model(
                old(self).model(),
                old(self).rows(),
                old(self).cols(),
                ch,
            ),
    {
        if ch == '\n' {
            self.newline();
        } else {
            if self.cursor_x >= self.cols {
                self.newline();
            }
            let ghost cy = self.cursor_y;
            let ghost cx = self.cursor_x;
            proof {
                assert(self.rows * self.cols == self.cells.len());
                assert(cy * self.cols + cx < self.rows * self.cols) by (nonlinear_arith)
                    requires cy < self.rows, cx < self.cols;
            }
            let idx = self.cursor_y * self.cols + self.cursor_x;
            self.cells.set(idx, Cell::new(ch, true));
            self.cursor_x = self.cursor_x + 1;
            if self.cursor_x >= self.cols {
                self.newline();
            }
        }
        self.dirty = true;
    }

    /// Moves the cursor back one cell, to the end of the previous line at a line
    /// start, and blanks that cell.
    pub fn backspace(&mut self)
        requires
            old(self).wf(),
            old(self).model().2 < old(self).rows(),
            !(old(self).model().1 == 0 && old(self).model().2 == 0) ==> old(self).cols() > 0,
        ensures
            final(self).wf(),
            final(self).rows() == old(self).rows(),
            final(self).cols() == old(self).cols(),
            final(self).xpixel() == old(self).xpixel(),
            final(self).ypixel() == old(self).ypixel(),
            final(self).model().2 < final(self).rows(),
            final(self).cols() > 0 ==> 0 <= final(self).model().1 < final(self).cols(),
            final(self).model() == backspace_model(old(self).model(), old(self).cols()),
    {
        if self.cursor_x >= self.cols && self.cols != 0 {
            self.cursor_x = self.cols - 1;
        }
        if self.cursor_x == 0 && self.cursor_y == 0 {
            return;
        }
        if self.cursor_x > 0 {
            self.cursor_x = self.cursor_x - 1;
        } else {
            self.cursor_y = self.cursor_y - 1;
            self.cursor_x = self.cols - 1;
        }
        let ghost cy = self.cursor_y;
        let ghost cx = self.cursor_x;
        proof {
            assert(self.rows * self.cols == self.cells.len());
            assert(cy * self.cols + cx < self.rows * self.cols) by (nonlinear_arith)
                requires cy < self.rows, cx < self.cols;
        }
        let idx = self.cursor_y * self.cols + self.cursor_x;
        self.cells.set(idx, Cell::new(' ', true));
        self.dirty = true;
    }
}

/// Distinct grid coordinates have distinct cell indices.
proof fn lemma_grid_index_distinct(i: int, j: int, x: int, y: int, cols: int)
    requires
        0 <= i < cols,
        0 <= x < cols,
        0 <= j,
        0 <= y,
        i != x || j != y,
    ensures
        j * cols + i != y * cols + x,
{
    if j < y {
        assert(j * cols + i < y * cols + x) by (nonlinear_arith)
            requires j < y, 0 <= i < cols, 0 <= x;
    } else if j > y {
        assert(y * cols + x < j * cols + i) by (nonlinear_arith)
            requires y < j, 0 <= x < cols, 0 <= i;
    }
}

/// Draws the console if it needs redrawing; nothing happens without a console.
pub fn flush_console(console: &mut Option<Console>, fb: &mut GopFramebuffer)
    requires
        old(console).is_some() ==> old(console).unwrap().wf() && old(fb).wf() && old(fb).font().len()
            >= FONT_LEN && old(console).unwrap().cols() * FONT_W <= old(fb).width()
            && old(console).unwrap().rows() * FONT_H <= old(fb).height(),
    ensures
        old(console).is_none() ==> *final(console) == *old(console) && *final(fb) == *old(fb),
        old(console).is_some() && !old(console).unwrap().model().3 ==> *final(console) == *old(console)
            && *final(fb) == *old(fb),
        old(console).is_some() && old(console).unwrap().model().3 ==> final(console).is_some() && ({
            let c = old(console).unwrap();
            let d = final(console).unwrap();
            &&& d.wf()
            &&& d.rows() == c.rows() && d.cols() == c.cols()
            &&& d.model() == (
                Seq::new(c.cells().len(), |k: int| cleaned(c.cells()[k])),
                c.model().1,
                c.model().2,
                c.model().3,
            )
            &&& forall|px: int, py: int|
                0 <= px < final(fb).stride() && 0 <= py < final(fb).height() ==> #[trigger] final(fb).pixel(px, py)
                    == flushed_pixel(c.cells(), c.rows(), c.cols(), old(fb).font(), px, py, old(fb).pixel(px, py))
        }),
{
    match console {
        Some(c) => {
            if !c.dirty {
                return;
            }
            c.flush(fb);
        },
        None => {},
    }
}

} // verus!
