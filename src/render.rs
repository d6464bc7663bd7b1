use crossterm::{cursor, style::{self, Colorize}, QueueableCommand};
use vstd::prelude::*;
use vstd::utf8::encode_utf8;
use crate::window::{decimal, digit_char, chars_to_string, content_of, WindowView, SimpleTerminalWindow};
use crate::screen::Screen;

verus! {

/// The bytes of an ASCII character sequence.
pub open spec fn ascii(s: Seq<char>) -> Seq<u8> {
    Seq::new(s.len(), |i: int| s[i] as u8)
}

/// `ESC [ row ; col H`, with 1-based row and column: the cursor to `(x, y)`.
pub open spec fn move_to_bytes(x: int, y: int) -> Seq<u8> {
    seq![0x1Bu8, 0x5Bu8] + ascii(decimal((y + 1) as nat)) + seq![0x3Bu8] + ascii(
        decimal((x + 1) as nat),
    ) + seq![0x48u8]
}

/// A full block in white (256-colour index 15) or black (index 0), followed by
/// a colour reset.
pub open spec fn block_bytes(white: bool) -> Seq<u8> {
    let color = if white {
        seq![0x31u8, 0x35u8]
    } else {
        seq![0x30u8]
    };
    seq![0x1Bu8, 0x5Bu8, 0x33u8, 0x38u8, 0x3Bu8, 0x35u8, 0x3Bu8] + color + seq![
        0x6Du8,
        0xE2u8,
        0x96u8,
        0x88u8,
        0x1Bu8,
        0x5Bu8,
        0x30u8,
        0x6Du8,
    ]
}

/// Relies on crossterm's `cursor::MoveTo` queued on a byte buffer, which
/// writes `ESC [ {y + 1} ; {x + 1} H`.
#[verifier::external_body]
fn queue_move_to(buf: &mut Vec<u8>, x: u16, y: u16)
    requires
        x < 0xFFFF,
        y < 0xFFFF,
    ensures
        final(buf)@ == old(buf)@ + move_to_bytes(x as int, y as int),
{
    buf.queue(cursor::MoveTo(x, y)).unwrap();
}

/// Relies on crossterm's `style::PrintStyledContent` of a white full block
/// queued on a byte buffer: the foreground colour, the block, and a reset.
#[verifier::external_body]
fn queue_white_block(buf: &mut Vec<u8>)
    ensures
        final(buf)@ == old(buf)@ + block_bytes(true),
{
    buf.queue(style::PrintStyledContent("\u{2588}".white())).unwrap();
}

/// Relies on crossterm's `style::PrintStyledContent` of a black full block
/// queued on a byte buffer: the foreground colour, the block, and a reset.
#[verifier::external_body]
fn queue_black_block(buf: &mut Vec<u8>)
    ensures
        final(buf)@ == old(buf)@ + block_bytes(false),
{
    buf.queue(style::PrintStyledContent("\u{2588}".black())).unwrap();
}

/// Relies on crossterm's `style::Print` of a string queued on a byte buffer,
/// which writes the string's UTF-8 bytes.
#[verifier::external_body]
fn queue_print(buf: &mut Vec<u8>, s: &str)
    ensures
        final(buf)@ == old(buf)@ + encode_utf8(s@),
{
    buf.queue(style::Print(s)).unwrap();
}

/// Appends the decimal digits of `n`.
fn push_digits(out: &mut Vec<char>, n: usize)
    ensures
        final(out)@ == old(out)@ + decimal(n as nat),
    decreases n,
{
    let ghost o = out@;
    if n >= 10 {
        push_digits(out, n / 10);
    }
    let d = ((n % 10) as u8 + 48) as char;
    assert(d == digit_char((n as nat % 10) as int));
    out.push(d);
    assert(out@ =~= o + decimal(n as nat));
}

/// Whether `(cx, cy)` lies on the perimeter of the rectangle at `(x, y)` of
/// `w` by `h` cells.
pub open spec fn on_edge(cx: int, cy: int, x: int, y: int, w: int, h: int) -> bool {
    cx == x || cy == y || cx == x + w - 1 || cy == y + h - 1
}

/// The draw commands for the first `n` cells of column `cx` of a rectangle,
/// skipping cells off the host.
pub open spec fn column_bytes(
    cx: int,
    x: int,
    y: int,
    w: int,
    h: int,
    max_w: int,
    max_h: int,
    framed: bool,
    n: int,
) -> Seq<u8>
    decreases n,
{
    if n <= 0 {
        Seq::empty()
    } else {
        let cy = y + n - 1;
        let prev = column_bytes(cx, x, y, w, h, max_w, max_h, framed, n - 1);
        if 0 <= cx < max_w && 0 <= cy < max_h {
            prev + move_to_bytes(cx, cy) + block_bytes(framed && on_edge(cx, cy, x, y, w, h))
        } else {
            prev
        }
    }
}

/// The draw commands for the first `n` columns of a rectangle of blocks,
/// column by column, the perimeter white when `framed`.
pub open spec fn rect_bytes(
    x: int,
    y: int,
    w: int,
    h: int,
    max_w: int,
    max_h: int,
    framed: bool,
    n: int,
) -> Seq<u8>
    decreases n,
{
    if n <= 0 {
        Seq::empty()
    } else {
        rect_bytes(x, y, w, h, max_w, max_h, framed, n - 1) + column_bytes(
            x + n - 1,
            x,
            y,
            w,
            h,
            max_w,
            max_h,
            framed,
            h,
        )
    }
}

/// Draws a `w` by `h` rectangle of blocks at `(x, y)`, clipped to the host's
/// `max_w` by `max_h` cells; with `framed` the perimeter is white, all else
/// black.
fn draw_rect(
    buf: &mut Vec<u8>,
    x: i32,
    y: i32,
    w: i32,
    h: i32,
    max_w: u16,
    max_h: u16,
    framed: bool,
)
    requires
        -1 <= x <= 0xFFFF,
        -1 <= y <= 0xFFFF,
        0 <= w <= 0x10001,
        0 <= h <= 0x10001,
    ensures
        final(buf)@ == old(buf)@ + rect_bytes(
            x as int,
            y as int,
            w as int,
            h as int,
            max_w as int,
            max_h as int,
            framed,
            w as int,
        ),
{
    let ghost start = buf@;
    let mut i: i32 = 0;
    while i < w
        invariant
            0 <= i <= w,
            -1 <= x <= 0xFFFF,
            -1 <= y <= 0xFFFF,
            0 <= w <= 0x10001,
            0 <= h <= 0x10001,
            buf@ == start + rect_bytes(
                x as int,
                y as int,
                w as int,
                h as int,
                max_w as int,
                max_h as int,
                framed,
                i as int,
            ),
        decreases w - i,
    {
        let cx = x + i;
        let ghost col_start = buf@;
        let mut j: i32 = 0;
        while j < h
            invariant
                0 <= i < w,
                0 <= j <= h,
                cx == x + i,
                -1 <= x <= 0xFFFF,
                -1 <= y <= 0xFFFF,
                0 <= w <= 0x10001,
                0 <= h <= 0x10001,
                buf@ == col_start + column_bytes(
                    cx as int,
                    x as int,
                    y as int,
                    w as int,
                    h as int,
                    max_w as int,
                    max_h as int,
                    framed,
                    j as int,
                ),
            decreases h - j,
        {
            let cy = y + j;
            if 0 <= cx && cx < max_w as i32 && 0 <= cy && cy < max_h as i32 {
                let edge = cx == x || cy == y || cx == x + w - 1 || cy == y + h - 1;
                queue_move_to(buf, cx as u16, cy as u16);
                if framed && edge {
                    queue_white_block(buf);
                } else {
                    queue_black_block(buf);
                }
            }
            j = j + 1;
            proof {
                assert(buf@ =~= col_start + column_bytes(
                    cx as int,
                    x as int,
                    y as int,
                    w as int,
                    h as int,
                    max_w as int,
                    max_h as int,
                    framed,
                    j as int,
                ));
            }
        }
        i = i + 1;
        proof {
            assert(buf@ =~= start + rect_bytes(
                x as int,
                y as int,
                w as int,
                h as int,
                max_w as int,
                max_h as int,
                framed,
                i as int,
            ));
        }
    }
}

/// Where a visible-width cut stands after some characters of a line: what
/// it kept, how many visible characters that holds, and whether it is in
/// text (0), just after ESC (1) or inside a control sequence (2).
pub struct CutState {
    pub out: Seq<char>,
    pub count: int,
    pub mode: int,
}

/// One more character for a cut to `w` visible characters: escape sequences
/// are kept whole and take no width; text is kept while fewer than `w`
/// visible characters are.
pub open spec fn cut_step(st: CutState, c: char, w: int) -> CutState {
    if st.mode == 1 {
        CutState { out: st.out.push(c), mode: if c == '[' { 2 } else { 0 }, ..st }
    } else if st.mode == 2 {
        CutState {
            out: st.out.push(c),
            mode: if 0x40 <= c as u32 <= 0x7E { 0 } else { 2 },
            ..st
        }
    } else if c == '\x1b' {
        CutState { out: st.out.push(c), mode: 1, ..st }
    } else if st.count < w {
        CutState { out: st.out.push(c), count: st.count + 1, ..st }
    } else {
        st
    }
}

/// Line `s` cut to `w` visible characters, escape sequences kept whole.
pub open spec fn visible_cut(s: Seq<char>, w: int) -> CutState
    decreases s.len(),
{
    if s.len() == 0 {
        CutState { out: Seq::empty(), count: 0, mode: 0 }
    } else {
        cut_step(visible_cut(s.drop_last(), w), s.last(), w)
    }
}

pub open spec fn min(a: int, b: int) -> int {
    if a <= b {
        a
    } else {
        b
    }
}

/// The lines of `t[0..k]`, split at each newline; the last is the line still
/// open.
pub open spec fn lines_upto(t: Seq<char>, k: int) -> Seq<Seq<char>>
    decreases k,
{
    if k <= 0 {
        seq![Seq::empty()]
    } else {
        let l = lines_upto(t, k - 1);
        if t[k - 1] == '\n' {
            l.push(Seq::empty())
        } else {
            l.update(l.len() - 1, l.last().push(t[k - 1]))
        }
    }
}

/// The lines of `t`, split at each newline.
pub open spec fn lines_of(t: Seq<char>) -> Seq<Seq<char>> {
    lines_upto(t, t.len() as int)
}

/// The draw commands for lines `0..n` of `ls`: line `i` at `(x, y + i)`, cut
/// to `max_w` visible characters.
pub open spec fn lines_bytes(x: int, y: int, max_w: int, ls: Seq<Seq<char>>, n: int) -> Seq<u8>
    decreases n,
{
    if n <= 0 {
        Seq::empty()
    } else {
        lines_bytes(x, y, max_w, ls, n - 1) + move_to_bytes(x, y + n - 1) + encode_utf8(
            visible_cut(ls[n - 1], max_w).out,
        )
    }
}

/// The draw commands that show text `t` at `(x, y)`: at most `max_lines`
/// lines, each cut to `max_w` visible characters.
pub open spec fn text_bytes(x: int, y: int, max_w: int, max_lines: int, t: Seq<char>) -> Seq<u8> {
    lines_bytes(x, y, max_w, lines_of(t), min(max_lines, lines_of(t).len() as int))
}

proof fn lemma_lines_nonempty(t: Seq<char>, k: int)
    ensures
        lines_upto(t, k).len() >= 1,
    decreases k,
{
    if k > 0 {
        lemma_lines_nonempty(t, k - 1);
    }
}

proof fn lemma_lines_bytes_prefix(
    x: int,
    y: int,
    max_w: int,
    a: Seq<Seq<char>>,
    b: Seq<Seq<char>>,
    n: int,
)
    requires
        n <= a.len(),
        n <= b.len(),
        forall|i: int| 0 <= i < n ==> a[i] == b[i],
    ensures
        lines_bytes(x, y, max_w, a, n) == lines_bytes(x, y, max_w, b, n),
    decreases n,
{
    if n > 0 {
        lemma_lines_bytes_prefix(x, y, max_w, a, b, n - 1);
    }
}

/// Shows `text` at `(x, y)`: line `i` of it at `(x, y + i)` for at most
/// `max_lines` lines, each cut to `max_w` visible characters.
fn render_text(buf: &mut Vec<u8>, x: u16, y: u16, max_w: u16, max_lines: u16, text: &Vec<char>)
    requires
        x < 0xFFFF,
        y + max_lines <= 0xFFFF,
    ensures
        final(buf)@ == old(buf)@ + text_bytes(
            x as int,
            y as int,
            max_w as int,
            max_lines as int,
            text@,
        ),
{
    let ghost start = buf@;
    let ghost t = text@;
    let mut cur: Vec<char> = Vec::new();
    let mut count: u16 = 0;
    let mut mode: u8 = 0;
    let mut line: usize = 0;
    let mut k: usize = 0;
    proof {
        assert(cur@ =~= visible_cut(lines_upto(t, 0).last(), max_w as int).out);
    }
    while k < text.len()
        invariant
            t == text@,
            k <= t.len(),
            x < 0xFFFF,
            y + max_lines <= 0xFFFF,
            line + 1 == lines_upto(t, k as int).len(),
            line <= k,
            cur@ == visible_cut(lines_upto(t, k as int).last(), max_w as int).out,
            count == visible_cut(lines_upto(t, k as int).last(), max_w as int).count,
            mode == visible_cut(lines_upto(t, k as int).last(), max_w as int).mode,
            buf@ == start + lines_bytes(
                x as int,
                y as int,
                max_w as int,
                lines_upto(t, k as int),
                min(max_lines as int, line as int),
            ),
        decreases t.len() - k,
    {
        let ghost l = lines_upto(t, k as int);
        let c = text[k];
        if c == '\n' {
            if line < max_lines as usize {
                queue_move_to(buf, x, y + line as u16);
                let s = chars_to_string(&cur);
                queue_print(buf, s.as_str());
            }
            cur = Vec::new();
            count = 0;
            mode = 0;
            line = line + 1;
        } else if mode == 1 {
            cur.push(c);
            mode = if c == '[' { 2 } else { 0 };
        } else if mode == 2 {
            cur.push(c);
            mode = if 0x40 <= c as u32 && c as u32 <= 0x7E { 0 } else { 2 };
        } else if c == '\x1b' {
            cur.push(c);
            mode = 1;
        } else if count < max_w {
            cur.push(c);
            count = count + 1;
        }
        k = k + 1;
        proof {
            let l2 = lines_upto(t, k as int);
            lemma_lines_nonempty(t, k - 1);
            let n = min(max_lines as int, line as int);
            assert(forall|i: int| 0 <= i < l.len() - 1 ==> l2[i] == l[i]);
            if c == '\n' {
                assert(cur@ =~= visible_cut(l2.last(), max_w as int).out);
            } else {
                assert(l2.last().drop_last() =~= l.last());
                assert(cur@ =~= visible_cut(l2.last(), max_w as int).out);
            }
            lemma_lines_bytes_prefix(x as int, y as int, max_w as int, l, l2, n);
        }
    }
    if line < max_lines as usize {
        queue_move_to(buf, x, y + line as u16);
        let s = chars_to_string(&cur);
        queue_print(buf, s.as_str());
    }
    proof {
        assert(t.len() == k);
    }
}

/// The title on the row above the window, when that row is on the host.
pub open spec fn title_bytes(mw: int, mh: int, v: WindowView) -> Seq<u8> {
    if v.y >= 1 && v.x < mw && v.y - 1 < mh {
        move_to_bytes(v.x, v.y - 1) + encode_utf8(v.title)
    } else {
        Seq::empty()
    }
}

/// The window's content, clipped to the host and to one line less than the
/// window's height; nothing when the window starts off the host.
pub open spec fn content_bytes(mw: int, mh: int, v: WindowView) -> Seq<u8> {
    if v.x < mw && v.y < mh {
        text_bytes(
            v.x,
            v.y,
            min(v.width, mw - v.x),
            min(v.height, mh - v.y) - 1,
            content_of(v.grid),
        )
    } else {
        Seq::empty()
    }
}

/// The right (`↔`) resize handle when the window ends left of the host's
/// right edge, and the bottom (`↕`) one when it ends above the host's bottom
/// edge; a handle whose other coordinate lies past the largest cursor
/// position a move can address is left out.
pub open spec fn handles_bytes(mw: int, mh: int, v: WindowView) -> Seq<u8> {
    let right = if v.x + v.width < mw && v.y + v.height / 2 < 0xFFFF {
        move_to_bytes(v.x + v.width, v.y + v.height / 2) + encode_utf8(seq!['\u{2194}'])
    } else {
        Seq::empty()
    };
    let bottom = if v.y + v.height < mh && v.x + v.width / 2 < 0xFFFF {
        move_to_bytes(v.x + v.width / 2, v.y + v.height) + encode_utf8(seq!['\u{2195}'])
    } else {
        Seq::empty()
    };
    right + bottom
}

/// The draw commands for one window on a `mw` by `mh` host: its framed
/// border, its title, its content and its resize handles.
pub open spec fn window_bytes(mw: int, mh: int, v: WindowView) -> Seq<u8> {
    rect_bytes(v.x - 1, v.y - 1, v.width + 2, v.height + 2, mw, mh, true, v.width + 2)
        + title_bytes(mw, mh, v) + content_bytes(mw, mh, v) + handles_bytes(mw, mh, v)
}

/// The draw commands for windows `0..n` of `s`, back to front.
pub open spec fn windows_bytes(mw: int, mh: int, s: Seq<SimpleTerminalWindow>, n: int) -> Seq<u8>
    decreases n,
{
    if n <= 0 {
        Seq::empty()
    } else {
        windows_bytes(mw, mh, s, n - 1) + window_bytes(mw, mh, s[n - 1]@)
    }
}

/// The diagnostic line at `(2, 0)`: the size of the frame drawn before it.
pub open spec fn info_bytes(size: nat) -> Seq<u8> {
    move_to_bytes(2, 0) + encode_utf8(INFO_LABEL@) + encode_utf8(decimal(size))
}

/// A full frame: the host filled with black blocks, every window back to
/// front, then the diagnostic line.
pub open spec fn frame_bytes(mw: int, mh: int, s: Seq<SimpleTerminalWindow>) -> Seq<u8> {
    let body = rect_bytes(0, 0, mw, mh, mw, mh, false, mw) + windows_bytes(
        mw,
        mh,
        s,
        s.len() as int,
    );
    body + info_bytes(body.len())
}

pub const INFO_LABEL: &'static str = "Stdout buffer size : ";

fn draw_title(buf: &mut Vec<u8>, w: u16, h: u16, win: &SimpleTerminalWindow)
    ensures
        final(buf)@ == old(buf)@ + title_bytes(w as int, h as int, win@),
{
    let x = win.get_x();
    let y = win.get_y();
    if y >= 1 && x < w && y - 1 < h {
        queue_move_to(buf, x, y - 1);
        let title = win.get_title().unwrap();
        queue_print(buf, title);
    }
}

fn draw_content(buf: &mut Vec<u8>, w: u16, h: u16, win: &SimpleTerminalWindow)
    requires
        win.wf(),
    ensures
        final(buf)@ == old(buf)@ + content_bytes(w as int, h as int, win@),
{
    let x = win.get_x();
    let y = win.get_y();
    let width = win.get_width();
    let height = win.get_height();
    if x < w && y < h {
        let cw: u16 = if width <= w - x {
            width
        } else {
            w - x
        };
        let ch: u16 = if height <= h - y {
            height
        } else {
            h - y
        };
        let text = win.get_content_chars();
        render_text(buf, x, y, cw, ch - 1, &text);
    }
}

fn draw_handles(buf: &mut Vec<u8>, w: u16, h: u16, win: &SimpleTerminalWindow)
    ensures
        final(buf)@ == old(buf)@ + handles_bytes(w as int, h as int, win@),
{
    let ghost b0 = buf@;
    let x = win.get_x();
    let y = win.get_y();
    let width = win.get_width();
    let height = win.get_height();
    if (x as u32 + width as u32) < w as u32 && (y as u32 + height as u32 / 2) < 0xFFFF {
        queue_move_to(buf, x + width, ((y as u32) + (height as u32) / 2) as u16);
        proof {
            reveal_strlit("\u{2194}");
            assert("\u{2194}"@ =~= seq!['\u{2194}']);
        }
        queue_print(buf, "\u{2194}");
    }
    let ghost b1 = buf@;
    assert(b1 =~= b0 + (if win@.x + win@.width < w && win@.y + win@.height / 2 < 0xFFFF {
        move_to_bytes(win@.x + win@.width, win@.y + win@.height / 2) + encode_utf8(seq!['\u{2194}'])
    } else {
        Seq::empty()
    }));
    if (y as u32 + height as u32) < h as u32 && (x as u32 + width as u32 / 2) < 0xFFFF {
        queue_move_to(buf, ((x as u32) + (width as u32) / 2) as u16, y + height);
        proof {
            reveal_strlit("\u{2195}");
            assert("\u{2195}"@ =~= seq!['\u{2195}']);
        }
        queue_print(buf, "\u{2195}");
    }
    assert(buf@ =~= b0 + handles_bytes(w as int, h as int, win@));
}

/// Draws one window.
fn draw_window(buf: &mut Vec<u8>, w: u16, h: u16, win: &SimpleTerminalWindow)
    requires
        win.wf(),
    ensures
        final(buf)@ == old(buf)@ + window_bytes(w as int, h as int, win@),
{
    let ghost b0 = buf@;
    let x = win.get_x();
    let y = win.get_y();
    let width = win.get_width();
    let height = win.get_height();
    draw_rect(buf, x as i32 - 1, y as i32 - 1, width as i32 + 2, height as i32 + 2, w, h, true);
    draw_title(buf, w, h, win);
    draw_content(buf, w, h, win);
    draw_handles(buf, w, h, win);
    assert(buf@ =~= b0 + window_bytes(w as int, h as int, win@));
}

/// Renders a full frame for a host of `w` by `h` cells: the host filled with
/// black blocks, each window back to front with its border, title, clipped
/// content and resize handles, and a line at `(2, 0)` giving the size of what
/// came before it. The caller writes the bytes to the host.
pub fn redraw(w: u16, h: u16, screen: &Screen) -> (r: Vec<u8>)
    requires
        screen.wf(),
    ensures
        r@ == frame_bytes(w as int, h as int, screen.containers@),
{
    let mut buf: Vec<u8> = Vec::new();
    draw_rect(&mut buf, 0, 0, w as i32, h as i32, w, h, false);
    let ghost bg = buf@;
    let ghost s = screen.containers@;
    let mut i: usize = 0;
    while i < screen.containers.len()
        invariant
            s == screen.containers@,
            screen.wf(),
            i <= s.len(),
            buf@ == bg + windows_bytes(w as int, h as int, s, i as int),
        decreases s.len() - i,
    {
        draw_window(&mut buf, w, h, &screen.containers[i]);
        i = i + 1;
        proof {
            assert(buf@ =~= bg + windows_bytes(w as int, h as int, s, i as int));
        }
    }
    let mut digits: Vec<char> = Vec::new();
    push_digits(&mut digits, buf.len());
    let size = chars_to_string(&digits);
    queue_move_to(&mut buf, 2, 0);
    queue_print(&mut buf, INFO_LABEL);
    queue_print(&mut buf, size.as_str());
    buf
}

} // verus!
