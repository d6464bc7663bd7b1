use std::sync::Arc;
use crossbeam::queue::SegQueue;
use vstd::prelude::*;
use vstd::utf8::encode_utf8;
use crate::grid::{CellGrid, CharacterCell, GridView, blank_grid, DEFAULT_FG, DEFAULT_BG};
use crate::parser::{VtParser, ParserView, feed, ground, lemma_feed_wf, lemma_feed_concat};

verus! {

#[verifier::external_type_specification]
#[verifier::external_body]
#[verifier::reject_recursive_types(T)]
pub struct ExSegQueue<T>(SegQueue<T>);

/// Relies on crossbeam's `SegQueue::new`: an empty unbounded queue.
#[verifier::external_body]
fn new_queue() -> Arc<SegQueue<Vec<u8>>> {
    Arc::new(SegQueue::new())
}

/// Relies on crossbeam's `SegQueue::len`. The reading thread pushes
/// concurrently, so nothing is known of the count.
#[verifier::external_body]
fn queued_chunks(q: &Arc<SegQueue<Vec<u8>>>) -> usize {
    q.len()
}

/// Relies on crossbeam's `SegQueue::pop`: the oldest chunk, or nothing when
/// the queue is empty. Which chunk that is depends on the reading thread.
#[verifier::external_body]
fn pop_chunk(q: &Arc<SegQueue<Vec<u8>>>) -> Option<Vec<u8>> {
    q.pop().ok()
}

/// Relies on `Arc::clone`: a second handle on the same queue.
#[verifier::external_body]
fn share_queue(q: &Arc<SegQueue<Vec<u8>>>) -> (r: Arc<SegQueue<Vec<u8>>>)
    ensures
        r == *q,
{
    Arc::clone(q)
}

/// Relies on `String`'s `FromIterator<char>`: the characters in order.
#[verifier::external_body]
pub(crate) fn chars_to_string(v: &Vec<char>) -> (r: String)
    ensures
        r@ == v@,
{
    v.iter().collect()
}

/// A key as the window encodes it for the child.
#[derive(Clone, Copy, PartialEq, Eq, Structural, Debug)]
pub enum KeyCode {
    Char(char),
    Enter,
    Backspace,
    Left,
    Right,
    Up,
    Down,
    Other,
}

/// The bytes a key sends to the child; Ctrl+C sends ETX.
pub open spec fn key_bytes(code: KeyCode, ctrl: bool) -> Seq<u8> {
    match code {
        KeyCode::Char(c) => if ctrl && (c == 'c' || c == 'C') {
            seq![0x03u8]
        } else {
            seq![c as u8]
        },
        KeyCode::Enter => seq![0x0Au8],
        KeyCode::Backspace => seq![0x08u8],
        KeyCode::Left => seq![0x1Bu8, 0x5Bu8, 0x44u8],
        KeyCode::Right => seq![0x1Bu8, 0x5Bu8, 0x43u8],
        KeyCode::Up => seq![0x1Bu8, 0x5Bu8, 0x41u8],
        KeyCode::Down => seq![0x1Bu8, 0x5Bu8, 0x42u8],
        KeyCode::Other => Seq::empty(),
    }
}

/// The decimal digit `d` as a character.
pub open spec fn digit_char(d: int) -> char {
    ((d + 48) as u8) as char
}

/// The decimal representation of `n`.
pub open spec fn decimal(n: nat) -> Seq<char>
    decreases n,
{
    if n < 10 {
        seq![digit_char(n as int)]
    } else {
        decimal(n / 10).push(digit_char((n % 10) as int))
    }
}

/// The escape sequence that selects SGR code `code`.
pub open spec fn sgr_seq(code: u8) -> Seq<char> {
    seq!['\x1b', '['] + decimal(code as nat) + seq!['m']
}

/// The sequence that selects foreground colour `code`: the basic SGR code
/// for 30 to 37, the 256-colour form `38;5;code` otherwise.
pub open spec fn fg_seq(code: u8) -> Seq<char> {
    if 30 <= code <= 37 {
        sgr_seq(code)
    } else {
        ext_seq(38, code)
    }
}

/// The sequence that selects background colour `code`: the basic SGR code
/// for 40 to 47, the 256-colour form `48;5;code` otherwise.
pub open spec fn bg_seq(code: u8) -> Seq<char> {
    if 40 <= code <= 47 {
        sgr_seq(code)
    } else {
        ext_seq(48, code)
    }
}

/// The 256-colour form `k;5;code` of an SGR sequence.
pub open spec fn ext_seq(k: u8, code: u8) -> Seq<char> {
    seq!['\x1b', '['] + decimal(k as nat) + seq![';'] + decimal(5) + seq![';'] + decimal(
        code as nat,
    ) + seq!['m']
}

/// The styled text of the cells from index `k` on, where `x` is the column of
/// cell `k` and `pfg`, `pbg` the colours last selected.
pub open spec fn content_from(g: GridView, k: int, x: int, pfg: u8, pbg: u8) -> Seq<char>
    decreases g.cells.len() - k,
{
    if k < 0 || k >= g.cells.len() {
        Seq::empty()
    } else {
        let c = g.cells[k];
        let bg: u8 = if k == g.cursor_index() {
            47
        } else {
            c.bg
        };
        let a = if c.fg != pfg {
            fg_seq(c.fg)
        } else {
            Seq::empty()
        };
        let b = if bg != pbg {
            bg_seq(bg)
        } else {
            Seq::empty()
        };
        let eol = x + 1 == g.width;
        let e = if eol {
            seq!['\n']
        } else {
            Seq::empty()
        };
        a + b + seq![c.ch] + e + content_from(
            g,
            k + 1,
            if eol {
                0
            } else {
                x + 1
            },
            c.fg,
            bg,
        )
    }
}

/// The grid as styled text: row by row, an SGR sequence (the 256-colour form
/// outside the basic colours) wherever the foreground or background differs
/// from the cell before, the cell under the
/// cursor on background 47, and a newline after each row. Colours are
/// compared from the defaults on, so the first cell's are written unless
/// they are the defaults.
pub open spec fn content_of(g: GridView) -> Seq<char> {
    content_from(g, 0, 0, DEFAULT_FG, DEFAULT_BG)
}

/// Abstract state of a terminal window.
pub struct WindowView {
    pub x: int,
    pub y: int,
    pub width: int,
    pub height: int,
    pub title: Seq<char>,
    pub scroll_y: int,
    pub grid: GridView,
    pub parser: ParserView,
    /// The cell the last mouse press landed on.
    pub press: (int, int),
    /// Size when the mouse was last pressed or released.
    pub last_size: (int, int),
    /// Position when the mouse was last pressed or released.
    pub last_pos: (int, int),
    pub master_fd: i32,
    pub child_pid: i32,
}

impl WindowView {
    pub open spec fn wf(self) -> bool {
        &&& self.grid.wf()
        &&& self.parser.wf()
        &&& self.grid.width == self.width
        &&& self.grid.height == self.height
        &&& 0 <= self.x <= u16::MAX
        &&& 0 <= self.y <= u16::MAX
        &&& 0 <= self.scroll_y <= u16::MAX
        &&& 0 <= self.press.0 <= u16::MAX && 0 <= self.press.1 <= u16::MAX
        &&& 0 <= self.last_size.0 <= u16::MAX && 0 <= self.last_size.1 <= u16::MAX
        &&& 0 <= self.last_pos.0 <= u16::MAX && 0 <= self.last_pos.1 <= u16::MAX
    }

    /// Hit test including the one-cell border.
    pub open spec fn touches(self, x: int, y: int) -> bool {
        &&& self.x - 1 <= x <= self.x + self.width
        &&& self.y - 1 <= y <= self.y + self.height
    }

    /// The window with a new size and a fresh grid of that size.
    pub open spec fn sized(self, w: int, h: int) -> WindowView {
        WindowView { width: w, height: h, grid: self.grid.resized(w, h), ..self }
    }

    /// The window with bytes fed through its parser.
    pub open spec fn fed(self, bytes: Seq<u8>) -> WindowView {
        let r = feed(self.grid, self.parser, bytes);
        WindowView { grid: r.0, parser: r.1, ..self }
    }

    /// The press landed on the right edge.
    pub open spec fn pressed_right_edge(self) -> bool {
        &&& self.press.0 == self.x + self.last_size.0
        &&& self.last_pos.1 <= self.press.1 < self.last_pos.1 + self.last_size.1 + 1
    }

    /// The press landed on the bottom edge.
    pub open spec fn pressed_bottom_edge(self) -> bool {
        &&& self.press.1 == self.y + self.last_size.1
        &&& self.last_pos.0 <= self.press.0 < self.last_pos.0 + self.last_size.0 + 1
    }

    /// The press landed on the title bar.
    pub open spec fn pressed_title(self) -> bool {
        &&& self.press.1 == self.last_pos.1 - 1
        &&& self.last_pos.0 <= self.press.0 < self.last_pos.0 + self.last_size.0 + 1
    }

    /// The window after a drag to `(x, y)`: resize width, resize height, then
    /// move, each as the press origin decides.
    pub open spec fn dragged(self, x: int, y: int) -> WindowView {
        let s1 = if self.pressed_right_edge() && x > self.x {
            self.sized(x - self.x, self.height)
        } else {
            self
        };
        let s2 = if self.pressed_bottom_edge() && y > self.y {
            s1.sized(s1.width, y - self.y)
        } else {
            s1
        };
        if self.pressed_title() {
            let dx = self.press.0 - self.last_pos.0;
            let dy = self.press.1 - (self.last_pos.1 - 1);
            WindowView {
                x: if x > dx {
                    x - dx
                } else {
                    s2.x
                },
                y: if y > dy {
                    y - dy
                } else {
                    s2.y
                },
                ..s2
            }
        } else {
            s2
        }
    }
}

pub open spec fn clamp_scroll(v: int) -> int {
    if v < 0 {
        0
    } else if v > u16::MAX {
        u16::MAX as int
    } else {
        v
    }
}

/// A window hosting one child terminal: its cell grid and parser, its place
/// and size on screen, its title, and the state of a mouse gesture. The child
/// process and its PTY are run outside; the window keeps the master fd and
/// process id for them and the queue that the reading thread fills.
pub struct SimpleTerminalWindow {
    x: u16,
    y: u16,
    width: u16,
    height: u16,
    title: String,
    scroll_y: u16,
    grid: CellGrid,
    last_mouse_down_pos_coords: (u16, u16),
    last_size: (u16, u16),
    last_pos: (u16, u16),
    master_fd: i32,
    child_pid: i32,
    queue: Arc<SegQueue<Vec<u8>>>,
    vte_parser: VtParser,
}

impl View for SimpleTerminalWindow {
    type V = WindowView;

    closed spec fn view(&self) -> WindowView {
        WindowView {
            x: self.x as int,
            y: self.y as int,
            width: self.width as int,
            height: self.height as int,
            title: self.title@,
            scroll_y: self.scroll_y as int,
            grid: self.grid@,
            parser: self.vte_parser@,
            press: (
                self.last_mouse_down_pos_coords.0 as int,
                self.last_mouse_down_pos_coords.1 as int,
            ),
            last_size: (self.last_size.0 as int, self.last_size.1 as int),
            last_pos: (self.last_pos.0 as int, self.last_pos.1 as int),
            master_fd: self.master_fd,
            child_pid: self.child_pid,
        }
    }
}

/// Appends the decimal digits of `n`.
fn push_decimal(out: &mut Vec<char>, n: u8)
    ensures
        final(out)@ == old(out)@ + decimal(n as nat),
{
    let ghost o = out@;
    let n0 = n as u32;
    let d1 = ((n0 / 100 + 48) as u8) as char;
    let d2 = (((n0 / 10) % 10 + 48) as u8) as char;
    let d3 = ((n0 % 10 + 48) as u8) as char;
    assert(d1 == digit_char((n as nat / 100) as int));
    assert(d2 == digit_char(((n as nat / 10) % 10) as int));
    assert(d3 == digit_char((n as nat % 10) as int));
    if n0 >= 100 {
        out.push(d1);
    }
    if n0 >= 10 {
        out.push(d2);
    }
    out.push(d3);
    proof {
        let nn = n as nat;
        if nn >= 100 {
            assert(nn / 10 >= 10);
            assert((nn / 10) / 10 == nn / 100);
            assert(nn / 100 < 10);
            assert(decimal(nn / 100) == seq![digit_char((nn / 100) as int)]);
            assert(decimal(nn) == decimal(nn / 10).push(digit_char((nn % 10) as int)));
            assert(decimal(nn) =~= seq![
                digit_char((nn / 100) as int),
                digit_char(((nn / 10) % 10) as int),
                digit_char((nn % 10) as int),
            ]);
            assert(decimal(nn / 10) == decimal(nn / 100).push(digit_char(((nn / 10) % 10) as int)));
            assert(out@ =~= o + decimal(nn));
        } else if nn >= 10 {
            assert(nn / 10 < 10);
            assert(out@ =~= o + decimal(nn));
        } else {
            assert(out@ =~= o + decimal(nn));
        }
    }
}

/// Appends the escape sequence that selects SGR code `code`.
fn push_sgr(out: &mut Vec<char>, code: u8)
    ensures
        final(out)@ == old(out)@ + sgr_seq(code),
{
    let ghost o = out@;
    out.push('\x1b');
    out.push('[');
    push_decimal(out, code);
    out.push('m');
    assert(out@ =~= o + sgr_seq(code));
}

/// Appends the 256-colour form `k;5;code` of an SGR sequence.
fn push_ext(out: &mut Vec<char>, k: u8, code: u8)
    ensures
        final(out)@ == old(out)@ + ext_seq(k, code),
{
    let ghost o = out@;
    out.push('\x1b');
    out.push('[');
    push_decimal(out, k);
    out.push(';');
    push_decimal(out, 5);
    out.push(';');
    push_decimal(out, code);
    out.push('m');
    assert(out@ =~= o + ext_seq(k, code));
}

/// Appends the sequence that selects foreground colour `code`.
fn push_fg(out: &mut Vec<char>, code: u8)
    ensures
        final(out)@ == old(out)@ + fg_seq(code),
{
    if 30 <= code && code <= 37 {
        push_sgr(out, code);
    } else {
        push_ext(out, 38, code);
    }
}

/// Appends the sequence that selects background colour `code`.
fn push_bg(out: &mut Vec<char>, code: u8)
    ensures
        final(out)@ == old(out)@ + bg_seq(code),
{
    if 40 <= code && code <= 47 {
        push_sgr(out, code);
    } else {
        push_ext(out, 48, code);
    }
}

/// The styled text of one cell: its colour changes, its character, and a
/// newline at the end of a row.
pub open spec fn cell_piece(ch: char, fg: u8, bg: u8, pfg: u8, pbg: u8, eol: bool) -> Seq<char> {
    (if fg != pfg {
        fg_seq(fg)
    } else {
        Seq::empty()
    }) + (if bg != pbg {
        bg_seq(bg)
    } else {
        Seq::empty()
    }) + seq![ch] + (if eol {
        seq!['\n']
    } else {
        Seq::empty()
    })
}

fn push_cell(out: &mut Vec<char>, ch: char, fg: u8, bg: u8, pfg: u8, pbg: u8, eol: bool)
    ensures
        final(out)@ == old(out)@ + cell_piece(ch, fg, bg, pfg, pbg, eol),
{
    let ghost o = out@;
    if fg != pfg {
        push_fg(out, fg);
    }
    if bg != pbg {
        push_bg(out, bg);
    }
    out.push(ch);
    if eol {
        out.push('\n');
    }
    assert(out@ =~= o + cell_piece(ch, fg, bg, pfg, pbg, eol));
}

/// The styled text of a grid, as characters.
#[verifier::rlimit(30)]
pub fn content_chars(grid: &CellGrid) -> (r: Vec<char>)
    requires
        grid.wf(),
    ensures
        r@ == content_of(grid@),
{
    let ghost g = grid@;
    let mut out: Vec<char> = Vec::new();
    let mut pfg = DEFAULT_FG;
    let mut pbg = DEFAULT_BG;
    let w = grid.width();
    let h = grid.height();
    let (ccol, crow) = grid.cursor();
    let mut row: usize = 0;
    while row < h
        invariant
            g == grid@,
            g.wf(),
            w == g.width,
            h == g.height,
            ccol == g.col,
            crow == g.row,
            row <= h,
            out@ + content_from(g, row * w, 0, pfg, pbg) == content_of(g),
        decreases h - row,
    {
        let mut x: usize = 0;
        while x < w
            invariant
                g == grid@,
                g.wf(),
                w == g.width,
                h == g.height,
                ccol == g.col,
                crow == g.row,
                row < h,
                x <= w,
                out@ + content_from(g, row * w + x, if x == w { 0 } else { x as int }, pfg, pbg)
                    == content_of(g),
            decreases w - x,
        {
            let ghost k = row * w + x;
            let ghost before = out@;
            let ghost pfg0 = pfg;
            let ghost pbg0 = pbg;
            proof {
                assert(0 <= k < g.cells.len()) by (nonlinear_arith)
                    requires
                        k == row * w + x,
                        row < h,
                        x < w,
                        g.cells.len() == w * h,
                ;
                assert((x == ccol && row == crow) <==> (k == g.cursor_index())) by (nonlinear_arith)
                    requires
                        k == row * w + x,
                        g.cursor_index() == crow * w + ccol,
                        x < w,
                        ccol < w,
                ;
            }
            let c = grid.cell(x, row).unwrap();
            let bg: u8 = if x == ccol && row == crow {
                47
            } else {
                c.bg
            };
            push_cell(&mut out, c.ch, c.fg, bg, pfg, pbg, x + 1 == w);
            pfg = c.fg;
            pbg = bg;
            x = x + 1;
            proof {
                let nx = if x == w { 0 } else { x as int };
                let piece = cell_piece(c.ch, c.fg, bg, pfg0, pbg0, x == w);
                let rest = content_from(g, k + 1, nx, c.fg, bg);
                assert(out@ =~= before + piece);
                assert(content_from(g, k, (x - 1) as int, pfg0, pbg0) == piece + rest);
                assert(out@ + rest =~= before + (piece + rest));
                assert(row * w + x == k + 1);
            }
        }
        row = row + 1;
        proof {
            assert(row * w == (row - 1) * w + w) by (nonlinear_arith);
        }
    }
    proof {
        assert(content_from(g, (h * w) as int, 0, pfg, pbg) == Seq::<char>::empty()) by {
            assert(h * w == g.cells.len()) by (nonlinear_arith)
                requires
                    g.cells.len() == g.width * g.height,
                    w == g.width,
                    h == g.height,
            ;
        }
        assert(out@ =~= content_of(g));
    }
    out
}

/// The bytes a key sends to the child.
pub fn encode_key(code: KeyCode, ctrl: bool) -> (r: Vec<u8>)
    ensures
        r@ == key_bytes(code, ctrl),
{
    let r: Vec<u8> = match code {
        KeyCode::Char(c) => if ctrl && (c == 'c' || c == 'C') {
            vec![0x03u8]
        } else {
            vec![c as u8]
        },
        KeyCode::Enter => vec![0x0Au8],
        KeyCode::Backspace => vec![0x08u8],
        KeyCode::Left => vec![0x1Bu8, 0x5Bu8, 0x44u8],
        KeyCode::Right => vec![0x1Bu8, 0x5Bu8, 0x43u8],
        KeyCode::Up => vec![0x1Bu8, 0x5Bu8, 0x41u8],
        KeyCode::Down => vec![0x1Bu8, 0x5Bu8, 0x42u8],
        KeyCode::Other => Vec::new(),
    };
    assert(r@ =~= key_bytes(code, ctrl));
    r
}

impl SimpleTerminalWindow {
    pub open spec fn wf(&self) -> bool {
        self@.wf()
    }

    /// A window at `(x, y)` of `width` by `height` cells with a blank grid, a
    /// parser in ground state, an empty input queue and no child attached.
    pub fn new(x: u16, y: u16, width: u16, height: u16, title: String) -> (r: SimpleTerminalWindow)
        requires
            width >= 1,
            height >= 1,
        ensures
            r.wf(),
            r@.x == x && r@.y == y && r@.width == width && r@.height == height,
            r@.title == title@,
            r@.scroll_y == 0,
            r@.grid == blank_grid(width as int, height as int),
            r@.parser == ground(),
            r@.press == (0int, 0int),
            r@.last_size == (width as int, height as int),
            r@.last_pos == (x as int, y as int),
            r@.master_fd == -1 && r@.child_pid == -1,
    {
        SimpleTerminalWindow {
            x,
            y,
            width,
            height,
            title,
            scroll_y: 0,
            grid: CellGrid::new(width, height),
            last_mouse_down_pos_coords: (0, 0),
            last_size: (width, height),
            last_pos: (x, y),
            master_fd: -1,
            child_pid: -1,
            queue: new_queue(),
            vte_parser: VtParser::new(),
        }
    }

    /// Records the child's PTY master fd and process id.
    pub fn attach_pty(&mut self, master_fd: i32, child_pid: i32)
        requires
            old(self).wf(),
        ensures
            final(self).wf(),
            final(self)@ == (WindowView { master_fd, child_pid, ..old(self)@ }),
    {
        self.master_fd = master_fd;
        self.child_pid = child_pid;
    }

    pub fn master_fd(&self) -> (r: i32)
        ensures
            r == self@.master_fd,
    {
        self.master_fd
    }

    pub fn child_pid(&self) -> (r: i32)
        ensures
            r == self@.child_pid,
    {
        self.child_pid
    }

    /// The queue of output chunks that `update_content` drains.
    pub closed spec fn queue_handle(&self) -> Arc<SegQueue<Vec<u8>>> {
        self.queue
    }

    /// A handle on the queue of output chunks, for the thread that reads the
    /// child's PTY: the very queue that `update_content` drains.
    pub fn queue(&self) -> (r: Arc<SegQueue<Vec<u8>>>)
        ensures
            r == self.queue_handle(),
    {
        share_queue(&self.queue)
    }

    /// Feeds raw child output through the parser into the grid.
    pub fn input(&mut self, input: &[u8])
        requires
            old(self).wf(),
        ensures
            final(self).wf(),
            final(self)@ == old(self)@.fed(input@),
    {
        proof {
            lemma_feed_wf(self.grid@, self.vte_parser@, input@);
        }
        self.vte_parser.advance_all(&mut self.grid, input);
    }

    /// Feeds the UTF-8 bytes of `s` through the parser into the grid.
    pub fn add_string(&mut self, s: String)
        requires
            old(self).wf(),
        ensures
            final(self).wf(),
            final(self)@ == old(self)@.fed(encode_utf8(s@)),
    {
        let bytes = s.as_str().as_bytes();
        self.input(bytes);
    }

    /// Drains the chunks queued when the call starts, feeding each through the
    /// parser in order. The window ends as if some byte sequence had been fed.
    pub fn update_content(&mut self)
        requires
            old(self).wf(),
        ensures
            final(self).wf(),
            exists|bytes: Seq<u8>| final(self)@ == old(self)@.fed(bytes),
    {
        let ghost start = self@;
        let ghost mut fed_bytes: Seq<u8> = Seq::empty();
        proof {
            assert(start.fed(fed_bytes) == start);
        }
        let n = queued_chunks(&self.queue);
        let mut i: usize = 0;
        while i < n
            invariant
                self.wf(),
                self@ == start.fed(fed_bytes),
            decreases n - i,
        {
            match pop_chunk(&self.queue) {
                Some(chunk) => {
                    proof {
                        lemma_feed_concat(start.grid, start.parser, fed_bytes, chunk@);
                    }
                    self.input(chunk.as_slice());
                    proof {
                        fed_bytes = fed_bytes + chunk@;
                    }
                },
                None => {
                    break;
                },
            }
            i = i + 1;
        }
    }

    /// The grid as styled text: row by row, an SGR sequence wherever a colour
    /// differs from the cell before, the cursor cell on background 47, and a
    /// newline after each row.
    pub fn get_content(&self) -> (r: String)
        requires
            self.wf(),
        ensures
            r@ == content_of(self@.grid),
    {
        chars_to_string(&content_chars(&self.grid))
    }

    /// The styled text of the grid, as characters.
    pub fn get_content_chars(&self) -> (r: Vec<char>)
        requires
            self.wf(),
        ensures
            r@ == content_of(self@.grid),
    {
        content_chars(&self.grid)
    }

    pub fn get_x(&self) -> (r: u16)
        ensures
            r == self@.x,
    {
        self.x
    }

    pub fn get_y(&self) -> (r: u16)
        ensures
            r == self@.y,
    {
        self.y
    }

    pub fn get_width(&self) -> (r: u16)
        ensures
            r == self@.width,
    {
        self.width
    }

    pub fn get_height(&self) -> (r: u16)
        ensures
            r == self@.height,
    {
        self.height
    }

    /// The cursor as `(col, row)`.
    pub fn get_cursor(&self) -> (r: (usize, usize))
        ensures
            r.0 == self@.grid.col,
            r.1 == self@.grid.row,
    {
        self.grid.cursor()
    }

    pub fn get_title(&self) -> (r: Option<&str>)
        ensures
            r is Some,
            r.unwrap()@ == self@.title,
    {
        Some(self.title.as_str())
    }

    pub fn get_printed_chars(&self) -> (r: usize)
        ensures
            r == self@.grid.printed,
    {
        self.grid.printed_chars()
    }

    pub fn get_scroll_y(&self) -> (r: u16)
        ensures
            r == self@.scroll_y,
    {
        self.scroll_y
    }

    /// The current foreground and background SGR colours.
    pub fn get_colors(&self) -> (r: (u8, u8))
        ensures
            r == (self@.grid.fg, self@.grid.bg),
    {
        (self.grid.fg_color(), self.grid.bg_color())
    }

    /// The cell at `(col, row)`, if it lies in the grid.
    pub fn get_cell(&self, col: usize, row: usize) -> (r: Option<CharacterCell>)
        requires
            self.wf(),
        ensures
            col < self@.width && row < self@.height ==> r == Some(
                self@.grid.cells[row * self@.width + col],
            ),
            !(col < self@.width && row < self@.height) ==> r is None,
    {
        self.grid.cell(col, row)
    }

    /// Whether the child rang the bell since the last call; clears it.
    pub fn take_bell(&mut self) -> (r: bool)
        requires
            old(self).wf(),
        ensures
            final(self).wf(),
            r == old(self)@.grid.bell,
            final(self)@ == (WindowView {
                grid: GridView { bell: false, ..old(self)@.grid },
                ..old(self)@
            }),
    {
        self.grid.take_bell()
    }

    /// Sets the size and replaces the grid by a blank one of that size. The
    /// caller tells the child about the new size.
    pub fn set_size(&mut self, width: u16, height: u16)
        requires
            old(self).wf(),
            width >= 1,
            height >= 1,
        ensures
            final(self).wf(),
            final(self)@ == old(self)@.sized(width as int, height as int),
    {
        self.width = width;
        self.height = height;
        self.grid.resize(width, height);
    }

    /// Adds `amount` to the scroll offset, clamped at 0 and at `u16::MAX`.
    pub fn on_scroll_y(&mut self, amount: i16)
        requires
            old(self).wf(),
        ensures
            final(self).wf(),
            final(self)@ == (WindowView {
                scroll_y: clamp_scroll(old(self)@.scroll_y + amount),
                ..old(self)@
            }),
    {
        let v: i32 = self.scroll_y as i32 + amount as i32;
        self.scroll_y = if v < 0 {
            0
        } else if v > 0xFFFF {
            0xFFFF
        } else {
            v as u16
        };
    }

    /// Records where the press landed and the geometry it starts from.
    pub fn on_mouse_down(&mut self, x: u16, y: u16)
        requires
            old(self).wf(),
        ensures
            final(self).wf(),
            final(self)@ == (WindowView {
                press: (x as int, y as int),
                last_size: (old(self)@.width, old(self)@.height),
                last_pos: (old(self)@.x, old(self)@.y),
                ..old(self)@
            }),
    {
        self.last_mouse_down_pos_coords = (x, y);
        self.last_size = (self.width, self.height);
        self.last_pos = (self.x, self.y);
    }

    /// Commits the current geometry as the baseline of the next gesture.
    pub fn on_mouse_up(&mut self, x: u16, y: u16)
        requires
            old(self).wf(),
        ensures
            final(self).wf(),
            final(self)@ == (WindowView {
                last_size: (old(self)@.width, old(self)@.height),
                last_pos: (old(self)@.x, old(self)@.y),
                ..old(self)@
            }),
    {
        self.last_size = (self.width, self.height);
        self.last_pos = (self.x, self.y);
    }

    /// Resizes or moves the window as the press origin decides: a press on the
    /// right edge sets the width to reach `x`, one on the bottom edge the height
    /// to reach `y`, one on the title bar moves the window with the pointer.
    /// A size or position that would not be positive is not applied.
    pub fn on_mouse_drag(&mut self, x: u16, y: u16)
        requires
            old(self).wf(),
        ensures
            final(self).wf(),
            final(self)@ == old(self)@.dragged(x as int, y as int),
    {
        let ghost w0 = self@;
        let px = self.last_mouse_down_pos_coords.0 as u32;
        let py = self.last_mouse_down_pos_coords.1 as u32;
        let lw = self.last_size.0 as u32;
        let lh = self.last_size.1 as u32;
        let lx = self.last_pos.0 as u32;
        let ly = self.last_pos.1 as u32;
        let sx = self.x as u32;
        let sy = self.y as u32;
        if px == sx + lw && py >= ly && py < ly + lh + 1 {
            if x > self.x {
                let h = self.height;
                self.set_size(x - self.x, h);
            }
        }
        let ghost w1 = self@;
        if py == sy + lh && px >= lx && px < lx + lw + 1 {
            if y > self.y {
                let w = self.width;
                self.set_size(w, y - self.y);
            }
        }
        if py + 1 == ly && px >= lx && px < lx + lw + 1 {
            let dx = px - lx;
            let dy = py + 1 - ly;
            if x as u32 > dx {
                self.x = (x as u32 - dx) as u16;
            }
            if y as u32 > dy {
                self.y = (y as u32 - dy) as u16;
            }
        }
    }

    /// The bytes a key sends to the child; the caller writes them to the
    /// master fd.
    pub fn on_key(&self, code: KeyCode, ctrl: bool) -> (r: Vec<u8>)
        ensures
            r@ == key_bytes(code, ctrl),
    {
        encode_key(code, ctrl)
    }

    /// Hit test including the one-cell border and the resize handles.
    pub fn is_touching(&self, x: u16, y: u16) -> (r: bool)
        ensures
            r == self@.touches(x as int, y as int),
    {
        x as u32 + 1 >= self.x as u32 && x as u32 <= self.x as u32 + self.width as u32 && y as u32
            + 1 >= self.y as u32 && y as u32 <= self.y as u32 + self.height as u32
    }
}

/// Resizing twice to the same size leaves the same state as resizing once.
pub proof fn lemma_resize_idempotent(w: WindowView, width: int, height: int)
    ensures
        w.sized(width, height).sized(width, height) == w.sized(width, height),
{
    assert(w.sized(width, height).sized(width, height).grid =~= w.sized(width, height).grid);
}

/// A press on the right edge, `dy` rows below the top, followed by a drag
/// `dx` columns to the right on the same row widens the window by `dx` and
/// leaves its height and position as they were.
pub proof fn lemma_right_edge_drag_widens(w: WindowView, dx: int, dy: int)
    requires
        w.wf(),
        dx > 0,
        0 <= dy <= w.height,
        w.x + w.width + dx <= u16::MAX,
        w.y + dy <= u16::MAX,
    ensures
        ({
            let pressed = WindowView {
                press: (w.x + w.width, w.y + dy),
                last_size: (w.width, w.height),
                last_pos: (w.x, w.y),
                ..w
            };
            let d = pressed.dragged(w.x + w.width + dx, w.y + dy);
            &&& d.width == w.width + dx
            &&& d.height == w.height
            &&& d.x == w.x
            &&& d.y == w.y
        }),
{
}

/// Scrolling up by more than the offset leaves it at 0.
pub proof fn lemma_scroll_clamps_at_zero(scroll_y: int, k: int)
    requires
        0 <= scroll_y <= u16::MAX,
        k > scroll_y,
        -k >= i16::MIN,
    ensures
        clamp_scroll(scroll_y + (-k)) == 0,
{
}

/// A drag that would put the window's left column at or before 0 leaves `x`
/// as it was.
pub proof fn lemma_drag_keeps_x_positive(w: WindowView, x: int, y: int)
    requires
        w.wf(),
        w.pressed_title(),
        x - (w.press.0 - w.last_pos.0) <= 0,
    ensures
        w.dragged(x, y).x == w.x,
{
}

} // verus!
