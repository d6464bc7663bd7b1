use vstd::prelude::*;

verus! {

/// One screen cell: a code point with its foreground and background SGR colours
/// and an attribute bitset that the emulator carries but does not interpret.
#[derive(Clone, Copy, PartialEq, Eq, Structural, Debug)]
pub struct CharacterCell {
    pub ch: char,
    pub fg: u8,
    pub bg: u8,
    pub attrs: u16,
}

pub const DEFAULT_FG: u8 = 37;

pub const DEFAULT_BG: u8 = 40;

/// The largest number of columns or rows a grid may have.
pub const MAX_DIM: usize = 0xFFFF;

pub open spec fn default_cell() -> CharacterCell {
    CharacterCell { ch: ' ', fg: DEFAULT_FG, bg: DEFAULT_BG, attrs: 0 }
}

pub fn blank_cell() -> (r: CharacterCell)
    ensures
        r == default_cell(),
{
    CharacterCell { ch: ' ', fg: DEFAULT_FG, bg: DEFAULT_BG, attrs: 0 }
}

/// Abstract state of a cell grid.
pub struct GridView {
    pub cells: Seq<CharacterCell>,
    pub width: int,
    pub height: int,
    pub col: int,
    pub row: int,
    pub fg: u8,
    pub bg: u8,
    pub printed: int,
    pub bell: bool,
}

/// A fresh `w` by `h` grid of default cells: cursor at the origin, default
/// colours, nothing printed.
pub open spec fn blank_grid(w: int, h: int) -> GridView {
    GridView {
        cells: Seq::new((w * h) as nat, |i: int| default_cell()),
        width: w,
        height: h,
        col: 0,
        row: 0,
        fg: DEFAULT_FG,
        bg: DEFAULT_BG,
        printed: 0,
        bell: false,
    }
}

pub open spec fn clamp(v: int, hi: int) -> int {
    if v < 0 {
        0
    } else if v > hi {
        hi
    } else {
        v
    }
}

impl GridView {
    pub open spec fn wf(self) -> bool {
        &&& 1 <= self.width <= MAX_DIM
        &&& 1 <= self.height <= MAX_DIM
        &&& self.cells.len() == self.width * self.height
        &&& 0 <= self.col < self.width
        &&& 0 <= self.row < self.height
        &&& 0 <= self.printed <= usize::MAX
    }

    /// Index of the cell under the cursor.
    pub open spec fn cursor_index(self) -> int {
        self.row * self.width + self.col
    }

    /// Index of the first cell of the cursor's row.
    pub open spec fn line_start(self) -> int {
        self.row * self.width
    }

    /// The cursor moved to `(col, row)`, each clamped into the grid.
    pub open spec fn with_cursor(self, col: int, row: int) -> GridView {
        GridView { col: clamp(col, self.width - 1), row: clamp(row, self.height - 1), ..self }
    }

    /// Cells with index in `[lo, hi)` reset to the default cell.
    pub open spec fn erased(self, lo: int, hi: int) -> GridView {
        GridView {
            cells: Seq::new(
                self.cells.len(),
                |i: int|
                    if lo <= i < hi {
                        default_cell()
                    } else {
                        self.cells[i]
                    },
            ),
            ..self
        }
    }

    /// `c` written at the cursor in the current colours; the cursor then
    /// advances, wrapping to the start of the next row at the right edge and
    /// staying put in the bottom-right corner.
    pub open spec fn printed_char(self, c: char) -> GridView {
        let idx = self.cursor_index();
        let at_edge = self.col + 1 >= self.width;
        GridView {
            cells: self.cells.update(
                idx,
                CharacterCell { ch: c, fg: self.fg, bg: self.bg, attrs: self.cells[idx].attrs },
            ),
            printed: if self.printed < usize::MAX {
                self.printed + 1
            } else {
                self.printed
            },
            col: if !at_edge {
                self.col + 1
            } else if self.row + 1 < self.height {
                0
            } else {
                self.col
            },
            row: if at_edge && self.row + 1 < self.height {
                self.row + 1
            } else {
                self.row
            },
            ..self
        }
    }

    /// The effect of a C0 control byte.
    pub open spec fn executed(self, byte: u8) -> GridView {
        if byte == 0x08 {
            self.with_cursor(self.col - 1, self.row)
        } else if byte == 0x0A {
            self.with_cursor(self.col, self.row + 1)
        } else if byte == 0x0D {
            self.with_cursor(0, self.row)
        } else if byte == 0x07 {
            GridView { bell: true, ..self }
        } else {
            self
        }
    }

    /// Erase in display (`CSI n J`).
    pub open spec fn erased_display(self, mode: int) -> GridView {
        if mode == 0 {
            self.erased(self.cursor_index(), self.cells.len() as int)
        } else if mode == 1 || mode == 2 || mode == 3 {
            self.erased(0, self.cursor_index() + 1)
        } else {
            self
        }
    }

    /// Erase in line (`CSI n K`).
    pub open spec fn erased_line(self, mode: int) -> GridView {
        if mode == 0 {
            self.erased(self.cursor_index(), self.line_start() + self.width)
        } else if mode == 1 {
            self.erased(self.line_start(), self.cursor_index() + 1)
        } else if mode == 2 {
            self.erased(self.line_start(), self.line_start() + self.width)
        } else {
            self
        }
    }

    /// The current colours replaced.
    pub open spec fn with_colors(self, fg: u8, bg: u8) -> GridView {
        GridView { fg, bg, ..self }
    }

    /// A fresh grid of `w` by `h` default cells with the cursor at the origin;
    /// colours, counter and bell are kept.
    pub open spec fn resized(self, w: int, h: int) -> GridView {
        GridView {
            cells: Seq::new((w * h) as nat, |i: int| default_cell()),
            width: w,
            height: h,
            col: 0,
            row: 0,
            ..self
        }
    }
}

/// Colours after one SGR code other than the extended `38;5;n` / `48;5;n` forms.
pub open spec fn sgr_code(fg: u8, bg: u8, code: u16) -> (u8, u8) {
    if code == 0 {
        (DEFAULT_FG, DEFAULT_BG)
    } else if 30 <= code <= 37 {
        (code as u8, bg)
    } else if code == 39 {
        (DEFAULT_FG, bg)
    } else if 40 <= code <= 47 {
        (fg, code as u8)
    } else if code == 49 {
        (fg, DEFAULT_BG)
    } else {
        (fg, bg)
    }
}

/// Whether `ps[i..]` starts with an extended colour form `38;5;n` or `48;5;n`.
pub open spec fn is_extended(ps: Seq<u16>, i: int) -> bool {
    (ps[i] == 38 || ps[i] == 48) && i + 2 < ps.len() && ps[i + 1] == 5
}

/// Colours after applying the SGR parameters `ps[i..]` in order.
pub open spec fn sgr_from(fg: u8, bg: u8, ps: Seq<u16>, i: int) -> (u8, u8)
    decreases ps.len() - i,
{
    if i < 0 || i >= ps.len() {
        (fg, bg)
    } else if is_extended(ps, i) {
        let n = ps[i + 2];
        if n > 255 {
            sgr_from(fg, bg, ps, i + 3)
        } else if ps[i] == 38 {
            sgr_from(n as u8, bg, ps, i + 3)
        } else {
            sgr_from(fg, n as u8, ps, i + 3)
        }
    } else {
        let c = sgr_code(fg, bg, ps[i]);
        sgr_from(c.0, c.1, ps, i + 1)
    }
}

/// Parameter `i`, with an absent one meaning 1.
pub open spec fn arg(ps: Seq<Option<u16>>, i: int) -> int {
    if 0 <= i < ps.len() && ps[i] is Some {
        ps[i]->0 as int
    } else {
        1
    }
}

/// The values of the parameters, an absent one meaning 1.
pub open spec fn param_values(ps: Seq<Option<u16>>) -> Seq<u16> {
    Seq::new(ps.len(), |i: int| arg(ps, i) as u16)
}

/// The effect of a complete control sequence `CSI ps final`; parameters
/// default to 1 when absent.
pub open spec fn csi_effect(g: GridView, ps: Seq<Option<u16>>, action: u8) -> GridView {
    let n = arg(ps, 0);
    if action == 0x41 {
        // 'A'
        g.with_cursor(g.col, g.row - n)
    } else if action == 0x42 {
        // 'B'
        g.with_cursor(g.col, g.row + n)
    } else if action == 0x43 {
        // 'C'
        g.with_cursor(g.col + n, g.row)
    } else if action == 0x44 {
        // 'D'
        g.with_cursor(g.col - n, g.row)
    } else if action == 0x45 {
        // 'E'
        g.with_cursor(0, g.row + n)
    } else if action == 0x46 {
        // 'F'
        g.with_cursor(0, g.row - n)
    } else if action == 0x47 {
        // 'G'
        g.with_cursor(n - 1, g.row)
    } else if action == 0x48 || action == 0x66 {
        // 'H', 'f'
        g.with_cursor(arg(ps, 1) - 1, n - 1)
    } else if action == 0x4A {
        // 'J'
        g.erased_display(n)
    } else if action == 0x4B {
        // 'K'
        g.erased_line(n)
    } else if action == 0x6D {
        // 'm'
        let c = sgr_from(g.fg, g.bg, param_values(ps), 0);
        g.with_colors(c.0, c.1)
    } else {
        g
    }
}

/// A rectangular buffer of character cells, row-major, with a cursor and the
/// current SGR colours.
pub struct CellGrid {
    printed_chars: usize,
    cursor: (usize, usize),
    grid: Vec<CharacterCell>,
    fg_color: u8,
    bg_color: u8,
    width: usize,
    height: usize,
    bell: bool,
}

impl View for CellGrid {
    type V = GridView;

    closed spec fn view(&self) -> GridView {
        GridView {
            cells: self.grid@,
            width: self.width as int,
            height: self.height as int,
            col: self.cursor.0 as int,
            row: self.cursor.1 as int,
            fg: self.fg_color,
            bg: self.bg_color,
            printed: self.printed_chars as int,
            bell: self.bell,
        }
    }
}

proof fn lemma_index_in_bounds(row: int, col: int, w: int, h: int)
    requires
        0 <= row < h,
        0 <= col < w,
        w <= MAX_DIM,
        h <= MAX_DIM,
    ensures
        0 <= row * w + col < w * h,
        row * w + w <= w * h,
        0 <= row * w,
        w * h <= MAX_DIM * MAX_DIM,
{
    assert(row * w + w <= w * h) by (nonlinear_arith)
        requires
            0 <= row < h,
            0 <= col < w,
    ;
    assert(0 <= row * w) by (nonlinear_arith)
        requires
            0 <= row,
            0 <= col < w,
    ;
    assert(w * h <= MAX_DIM * MAX_DIM) by (nonlinear_arith)
        requires
            0 <= w <= MAX_DIM,
            0 <= h <= MAX_DIM,
    ;
}

proof fn lemma_area_bound(w: int, h: int)
    requires
        1 <= w <= MAX_DIM,
        1 <= h <= MAX_DIM,
    ensures
        1 <= w * h <= MAX_DIM * MAX_DIM,
{
    assert(1 <= w * h <= MAX_DIM * MAX_DIM) by (nonlinear_arith)
        requires
            1 <= w <= MAX_DIM,
            1 <= h <= MAX_DIM,
    ;
}

/// `n` default cells.
fn blank_cells(n: usize) -> (r: Vec<CharacterCell>)
    ensures
        r@ == Seq::new(n as nat, |i: int| default_cell()),
{
    let mut v: Vec<CharacterCell> = Vec::with_capacity(n);
    let mut i: usize = 0;
    while i < n
        invariant
            i <= n,
            v@ == Seq::new(i as nat, |k: int| default_cell()),
        decreases n - i,
    {
        v.push(blank_cell());
        i = i + 1;
        assert(v@ =~= Seq::new(i as nat, |k: int| default_cell()));
    }
    v
}

/// The values of the parameters, an absent one meaning 1.
fn param_values_of(params: &Vec<Option<u16>>) -> (r: Vec<u16>)
    ensures
        r@ == param_values(params@),
{
    let mut r: Vec<u16> = Vec::new();
    let mut i: usize = 0;
    while i < params.len()
        invariant
            i <= params@.len(),
            r@ == param_values(params@).take(i as int),
        decreases params@.len() - i,
    {
        let v: u16 = match params[i] {
            Some(v) => v,
            None => 1,
        };
        r.push(v);
        i = i + 1;
        assert(r@ =~= param_values(params@).take(i as int));
    }
    assert(r@ =~= param_values(params@));
    r
}

impl CellGrid {
    pub open spec fn wf(&self) -> bool {
        self@.wf()
    }

    /// A grid of `width` by `height` default cells, cursor at the origin,
    /// default colours.
    pub fn new(width: u16, height: u16) -> (r: CellGrid)
        requires
            width >= 1,
            height >= 1,
        ensures
            r.wf(),
            r@ == blank_grid(width as int, height as int),
    {
        proof {
            lemma_area_bound(width as int, height as int);
        }
        let n = width as usize * height as usize;
        CellGrid {
            printed_chars: 0,
            cursor: (0, 0),
            grid: blank_cells(n),
            fg_color: DEFAULT_FG,
            bg_color: DEFAULT_BG,
            width: width as usize,
            height: height as usize,
            bell: false,
        }
    }

    pub fn width(&self) -> (r: usize)
        ensures
            r == self@.width,
    {
        self.width
    }

    pub fn height(&self) -> (r: usize)
        ensures
            r == self@.height,
    {
        self.height
    }

    /// The cursor as `(col, row)`.
    pub fn cursor(&self) -> (r: (usize, usize))
        ensures
            r.0 == self@.col,
            r.1 == self@.row,
    {
        self.cursor
    }

    pub fn fg_color(&self) -> (r: u8)
        ensures
            r == self@.fg,
    {
        self.fg_color
    }

    pub fn bg_color(&self) -> (r: u8)
        ensures
            r == self@.bg,
    {
        self.bg_color
    }

    pub fn printed_chars(&self) -> (r: usize)
        ensures
            r == self@.printed,
    {
        self.printed_chars
    }

    /// The cell at `(col, row)`, if it lies in the grid.
    pub fn cell(&self, col: usize, row: usize) -> (r: Option<CharacterCell>)
        requires
            self.wf(),
        ensures
            col < self@.width && row < self@.height ==> r == Some(
                self@.cells[row * self@.width + col],
            ),
            !(col < self@.width && row < self@.height) ==> r is None,
    {
        if col < self.width && row < self.height {
            proof {
                lemma_index_in_bounds(row as int, col as int, self.width as int, self.height as int);
            }
            Some(self.grid[row * self.width + col])
        } else {
            None
        }
    }

    /// Whether a bell was rung since the last call; clears it.
    pub fn take_bell(&mut self) -> (r: bool)
        ensures
            r == old(self)@.bell,
            final(self)@ == (GridView { bell: false, ..old(self)@ }),
    {
        let r = self.bell;
        self.bell = false;
        r
    }

    /// Writes `c` at the cursor in the current colours and advances the cursor.
    pub fn print(&mut self, c: char)
        requires
            old(self).wf(),
        ensures
            final(self).wf(),
            final(self)@ == old(self)@.printed_char(c),
    {
        let ghost g = self@;
        proof {
            lemma_index_in_bounds(
                self.cursor.1 as int,
                self.cursor.0 as int,
                self.width as int,
                self.height as int,
            );
        }
        let idx = self.cursor.1 * self.width + self.cursor.0;
        let attrs = self.grid[idx].attrs;
        self.grid.set(idx, CharacterCell { ch: c, fg: self.fg_color, bg: self.bg_color, attrs });
        if self.printed_chars < usize::MAX {
            self.printed_chars = self.printed_chars + 1;
        }
        if self.cursor.0 + 1 < self.width {
            self.cursor.0 = self.cursor.0 + 1;
        } else if self.cursor.1 + 1 < self.height {
            self.cursor = (0, self.cursor.1 + 1);
        }
        assert(self@ =~= g.printed_char(c));
    }

    /// Moves the cursor to `(col, row)`, each clamped into the grid.
    pub fn set_cursor(&mut self, col: i64, row: i64)
        requires
            old(self).wf(),
        ensures
            final(self).wf(),
            final(self)@ == old(self)@.with_cursor(col as int, row as int),
    {
        let c: usize = if col < 0 {
            0
        } else if col as u64 > (self.width - 1) as u64 {
            self.width - 1
        } else {
            col as usize
        };
        let r: usize = if row < 0 {
            0
        } else if row as u64 > (self.height - 1) as u64 {
            self.height - 1
        } else {
            row as usize
        };
        self.cursor = (c, r);
    }

    /// Moves the cursor by `(dcol, drow)`, clamped into the grid.
    pub fn move_cursor(&mut self, dcol: i64, drow: i64)
        requires
            old(self).wf(),
        ensures
            final(self).wf(),
            final(self)@ == old(self)@.with_cursor(
                old(self)@.col + dcol,
                old(self)@.row + drow,
            ),
    {
        // Any move beyond the grid's largest size clamps to the same edge.
        let dc: i64 = if dcol > 0x20000 {
            0x20000
        } else if dcol < -0x20000 {
            -0x20000
        } else {
            dcol
        };
        let dr: i64 = if drow > 0x20000 {
            0x20000
        } else if drow < -0x20000 {
            -0x20000
        } else {
            drow
        };
        let c = self.cursor.0 as i64 + dc;
        let r = self.cursor.1 as i64 + dr;
        self.set_cursor(c, r);
    }

    /// Applies a C0 control byte: backspace, line feed, carriage return, bell.
    pub fn execute(&mut self, byte: u8)
        requires
            old(self).wf(),
        ensures
            final(self).wf(),
            final(self)@ == old(self)@.executed(byte),
    {
        if byte == 0x08 {
            self.move_cursor(-1, 0);
        } else if byte == 0x0A {
            self.move_cursor(0, 1);
        } else if byte == 0x0D {
            let r = self.cursor.1 as i64;
            self.set_cursor(0, r);
        } else if byte == 0x07 {
            self.bell = true;
        }
    }

    /// Resets the cells with index in `[lo, hi)` to the default cell.
    fn erase_range(&mut self, lo: usize, hi: usize)
        requires
            old(self).wf(),
            lo <= hi <= old(self)@.cells.len(),
        ensures
            final(self).wf(),
            final(self)@ == old(self)@.erased(lo as int, hi as int),
    {
        let ghost g = self@;
        assert(g.erased(lo as int, lo as int).cells =~= g.cells);
        let mut i = lo;
        while i < hi
            invariant
                lo <= i <= hi,
                hi <= g.cells.len(),
                self@ == g.erased(lo as int, i as int),
            decreases hi - i,
        {
            self.grid.set(i, blank_cell());
            i = i + 1;
            assert(self@.cells =~= g.erased(lo as int, i as int).cells);
        }
    }

    /// Erase in display: mode 0 from the cursor to the end, modes 1 to 3 from
    /// the start to the cursor, inclusive.
    pub fn erase(&mut self, mode: u16)
        requires
            old(self).wf(),
        ensures
            final(self).wf(),
            final(self)@ == old(self)@.erased_display(mode as int),
    {
        proof {
            lemma_index_in_bounds(
                self.cursor.1 as int,
                self.cursor.0 as int,
                self.width as int,
                self.height as int,
            );
        }
        let idx = self.cursor.1 * self.width + self.cursor.0;
        let n = self.grid.len();
        if mode == 0 {
            self.erase_range(idx, n);
        } else if mode == 1 || mode == 2 || mode == 3 {
            self.erase_range(0, idx + 1);
        }
    }

    /// Erase in line: mode 0 from the cursor to the end of the line, 1 from the
    /// start of the line to the cursor, inclusive, 2 the whole line.
    pub fn erase_line(&mut self, mode: u16)
        requires
            old(self).wf(),
        ensures
            final(self).wf(),
            final(self)@ == old(self)@.erased_line(mode as int),
    {
        proof {
            lemma_index_in_bounds(
                self.cursor.1 as int,
                self.cursor.0 as int,
                self.width as int,
                self.height as int,
            );
        }
        let start = self.cursor.1 * self.width;
        let idx = start + self.cursor.0;
        if mode == 0 {
            self.erase_range(idx, start + self.width);
        } else if mode == 1 {
            self.erase_range(start, idx + 1);
        } else if mode == 2 {
            self.erase_range(start, start + self.width);
        }
    }

    /// Applies SGR parameters in order.
    pub fn set_sgr(&mut self, params: &Vec<u16>)
        requires
            old(self).wf(),
        ensures
            final(self).wf(),
            final(self)@ == ({
                let c = sgr_from(old(self)@.fg, old(self)@.bg, params@, 0);
                old(self)@.with_colors(c.0, c.1)
            }),
    {
        let ghost g = self@;
        let mut fg = self.fg_color;
        let mut bg = self.bg_color;
        let mut i: usize = 0;
        let n = params.len();
        while i < n
            invariant
                n == params@.len(),
                i <= n,
                sgr_from(fg, bg, params@, i as int) == sgr_from(g.fg, g.bg, params@, 0),
            decreases n - i,
        {
            let p = params[i];
            if (p == 38 || p == 48) && n - i > 2 && params[i + 1] == 5 {
                let v = params[i + 2];
                if v <= 255 {
                    if p == 38 {
                        fg = v as u8;
                    } else {
                        bg = v as u8;
                    }
                }
                i = i + 3;
            } else {
                if p == 0 {
                    fg = DEFAULT_FG;
                    bg = DEFAULT_BG;
                } else if 30 <= p && p <= 37 {
                    fg = p as u8;
                } else if p == 39 {
                    fg = DEFAULT_FG;
                } else if 40 <= p && p <= 47 {
                    bg = p as u8;
                } else if p == 49 {
                    bg = DEFAULT_BG;
                }
                i = i + 1;
            }
        }
        self.fg_color = fg;
        self.bg_color = bg;
    }

    /// Applies a complete control sequence `CSI params action`; unknown
    /// actions are ignored.
    pub fn csi_dispatch(&mut self, params: &Vec<Option<u16>>, action: u8)
        requires
            old(self).wf(),
        ensures
            final(self).wf(),
            final(self)@ == csi_effect(old(self)@, params@, action),
    {
        let n: u16 = if params.len() > 0 {
            match params[0] {
                Some(v) => v,
                None => 1,
            }
        } else {
            1
        };
        let m: u16 = if params.len() > 1 {
            match params[1] {
                Some(v) => v,
                None => 1,
            }
        } else {
            1
        };
        let n64 = n as i64;
        let m64 = m as i64;
        let row = self.cursor.1 as i64;
        if action == 0x41 {
            self.move_cursor(0, -n64);
        } else if action == 0x42 {
            self.move_cursor(0, n64);
        } else if action == 0x43 {
            self.move_cursor(n64, 0);
        } else if action == 0x44 {
            self.move_cursor(-n64, 0);
        } else if action == 0x45 {
            self.set_cursor(0, row + n64);
        } else if action == 0x46 {
            self.set_cursor(0, row - n64);
        } else if action == 0x47 {
            self.set_cursor(n64 - 1, row);
        } else if action == 0x48 || action == 0x66 {
            self.set_cursor(m64 - 1, n64 - 1);
        } else if action == 0x4A {
            self.erase(n);
        } else if action == 0x4B {
            self.erase_line(n);
        } else if action == 0x6D {
            let values = param_values_of(params);
            self.set_sgr(&values);
        }
    }

    /// Replaces the grid by `width` by `height` default cells and puts the
    /// cursor at the origin.
    pub fn resize(&mut self, width: u16, height: u16)
        requires
            old(self).wf(),
            width >= 1,
            height >= 1,
        ensures
            final(self).wf(),
            final(self)@ == old(self)@.resized(width as int, height as int),
    {
        proof {
            lemma_area_bound(width as int, height as int);
        }
        self.width = width as usize;
        self.height = height as usize;
        self.cursor = (0, 0);
        self.grid = blank_cells(width as usize * height as usize);
    }
}

/// Printing, C0 controls and control sequences keep a grid well formed and
/// keep its dimensions.
pub proof fn lemma_ops_wf(g: GridView, c: char, b: u8, ps: Seq<Option<u16>>)
    requires
        g.wf(),
    ensures
        g.printed_char(c).wf(),
        g.printed_char(c).width == g.width && g.printed_char(c).height == g.height,
        g.executed(b).wf(),
        g.executed(b).width == g.width && g.executed(b).height == g.height,
        csi_effect(g, ps, b).wf(),
        csi_effect(g, ps, b).width == g.width && csi_effect(g, ps, b).height == g.height,
{
    lemma_index_in_bounds(g.row, g.col, g.width, g.height);
}

} // verus!
