//! Replaying a window's styled content into a blank grid.

use vstd::prelude::*;
use vstd::utf8::{
    encode_utf8, encode_scalar, is_ascii_chars, is_ascii_chars_encode_utf8,
    leading_byte_width_2, leading_byte_width_3, leading_byte_width_4, last_continuation_byte,
    second_last_continuation_byte, third_last_continuation_byte,
};
use crate::grid::{CharacterCell, GridView, blank_grid, sgr_code, sgr_from, csi_effect, param_values, DEFAULT_FG, DEFAULT_BG};
use crate::parser::{ParserView, VtState, feed, step, ground, csi_entry, lemma_feed_concat, byte_char, decoded_char};
use crate::render::ascii;
use crate::window::{content_from, content_of, decimal, digit_char, sgr_seq, fg_seq, bg_seq, ext_seq};

verus! {

/// The parser collecting the single parameter `n` of a control sequence.
pub open spec fn collecting(n: u16) -> ParserView {
    ParserView { state: VtState::CsiParam, current: Some(n), ..ground() }
}

proof fn lemma_ascii_concat(a: Seq<char>, b: Seq<char>)
    ensures
        ascii(a + b) == ascii(a) + ascii(b),
{
    assert(ascii(a + b) =~= ascii(a) + ascii(b));
}

proof fn lemma_decimal_ascii(n: nat)
    ensures
        is_ascii_chars(decimal(n)),
        forall|i: int| 0 <= i < decimal(n).len() ==> 0x30 <= #[trigger] ascii(decimal(n))[i] <= 0x39,
        1 <= decimal(n).len(),
    decreases n,
{
    if n >= 10 {
        lemma_decimal_ascii(n / 10);
        let p = decimal(n / 10);
        let c = digit_char((n % 10) as int);
        assert(c as u8 == (n % 10 + 48) as u8);
        assert forall|i: int| 0 <= i < decimal(n).len() implies 0x30 <= #[trigger] ascii(
            decimal(n),
        )[i] <= 0x39 by {
            if i < p.len() {
                assert(ascii(decimal(n))[i] == ascii(p)[i]);
            }
        }
    } else {
        assert(digit_char(n as int) as u8 == (n + 48) as u8);
    }
}

/// Feeding the digits of `n` to a parser in a control sequence, before the
/// first digit of a parameter, leaves it collecting `n` as that parameter.
proof fn lemma_feed_digits_from(g: GridView, p: ParserView, n: nat)
    requires
        n <= 0xFFFF,
        p.state == VtState::CsiEntry || p.state == VtState::CsiParam,
        p.current is None,
    ensures
        feed(g, p, ascii(decimal(n))) == (g, ParserView {
            state: VtState::CsiParam,
            current: Some(n as u16),
            ..p
        }),
    decreases n,
{
    let d = ascii(decimal(n));
    if n < 10 {
        assert(digit_char(n as int) as u8 == (n + 48) as u8);
        assert(d.drop_last() =~= Seq::<u8>::empty());
        assert(d.last() == (n + 48) as u8);
        assert(feed(g, p, d.drop_last()) == (g, p));
    } else {
        assert(digit_char((n % 10) as int) as u8 == (n % 10 + 48) as u8);
        lemma_feed_digits_from(g, p, n / 10);
        assert(d.drop_last() =~= ascii(decimal(n / 10)));
        assert(d.last() == ((n % 10 + 48) as u8));
    }
}

/// Feeding the digits of `n` to a parser that just saw `ESC [` leaves it
/// collecting `n`.
proof fn lemma_feed_digits(g: GridView, n: nat)
    requires
        n <= 0xFFFF,
    ensures
        feed(g, csi_entry(), ascii(decimal(n))) == (g, collecting(n as u16)),
{
    lemma_feed_digits_from(g, csi_entry(), n);
}

/// A `;` in a control sequence completes the parameter being typed.
proof fn lemma_feed_semicolon(g: GridView, p: ParserView)
    requires
        p.state == VtState::CsiParam,
        p.params.len() < 16,
    ensures
        feed(g, p, seq![0x3Bu8]) == (g, ParserView {
            params: p.params.push(p.current),
            current: None,
            ..p
        }),
{
    lemma_feed_one(g, p, 0x3Bu8);
}

/// Feeding the 256-colour form `k;5;c` in ground state applies the three
/// parameters as one SGR sequence.
proof fn lemma_feed_ext(g: GridView, k: u8, c: u8)
    ensures
        feed(g, ground(), ascii(ext_seq(k, c))).1 == ground(),
        feed(g, ground(), ascii(ext_seq(k, c))).0 == ({
            let r = sgr_from(g.fg, g.bg, seq![k as u16, 5u16, c as u16], 0);
            GridView { fg: r.0, bg: r.1, ..g }
        }),
{
    let pre = seq![0x1Bu8, 0x5Bu8];
    let semi = seq![0x3Bu8];
    let dk = ascii(decimal(k as nat));
    let d5 = ascii(decimal(5));
    let dc = ascii(decimal(c as nat));
    let fin = seq![0x6Du8];
    let chars = seq!['\x1b', '['] + decimal(k as nat) + seq![';'] + decimal(5) + seq![';']
        + decimal(c as nat) + seq!['m'];
    assert(ext_seq(k, c) == chars);
    assert(ascii(chars) =~= pre + dk + semi + d5 + semi + dc + fin) by {
        lemma_ascii_concat(seq!['\x1b', '['], decimal(k as nat));
        lemma_ascii_concat(seq!['\x1b', '['] + decimal(k as nat), seq![';']);
        lemma_ascii_concat(seq!['\x1b', '['] + decimal(k as nat) + seq![';'], decimal(5));
        lemma_ascii_concat(
            seq!['\x1b', '['] + decimal(k as nat) + seq![';'] + decimal(5),
            seq![';'],
        );
        lemma_ascii_concat(
            seq!['\x1b', '['] + decimal(k as nat) + seq![';'] + decimal(5) + seq![';'],
            decimal(c as nat),
        );
        lemma_ascii_concat(
            seq!['\x1b', '['] + decimal(k as nat) + seq![';'] + decimal(5) + seq![';']
                + decimal(c as nat),
            seq!['m'],
        );
        assert(ascii(seq!['\x1b', '[']) =~= pre);
        assert(ascii(seq![';']) =~= semi);
        assert(ascii(seq!['m']) =~= fin);
    }
    // ESC [
    assert(pre.drop_last() =~= seq![0x1Bu8]);
    lemma_feed_one(g, ground(), 0x1Bu8);
    assert(pre.last() == 0x5Bu8);
    assert(feed(g, ground(), pre) == (g, csi_entry()));
    // k
    let p1 = collecting(k as u16);
    lemma_feed_digits(g, k as nat);
    lemma_feed_concat(g, ground(), pre, dk);
    // ;
    let p2 = ParserView { params: seq![Some(k as u16)], current: None, ..p1 };
    lemma_feed_semicolon(g, p1);
    assert(p1.params.push(p1.current) =~= seq![Some(k as u16)]);
    lemma_feed_concat(g, ground(), pre + dk, semi);
    // 5
    let p3 = ParserView { current: Some(5u16), ..p2 };
    lemma_feed_digits_from(g, p2, 5);
    lemma_feed_concat(g, ground(), pre + dk + semi, d5);
    // ;
    let p4 = ParserView { params: seq![Some(k as u16), Some(5u16)], current: None, ..p3 };
    lemma_feed_semicolon(g, p3);
    assert(p3.params.push(p3.current) =~= seq![Some(k as u16), Some(5u16)]);
    lemma_feed_concat(g, ground(), pre + dk + semi + d5, semi);
    // c
    let p5 = ParserView { current: Some(c as u16), ..p4 };
    lemma_feed_digits_from(g, p4, c as nat);
    lemma_feed_concat(g, ground(), pre + dk + semi + d5 + semi, dc);
    // m
    let ps = seq![Some(k as u16), Some(5u16), Some(c as u16)];
    assert(p5.final_params() =~= ps);
    let vs = seq![k as u16, 5u16, c as u16];
    assert(param_values(ps) =~= vs);
    lemma_feed_one(g, p5, 0x6Du8);
    lemma_feed_concat(g, ground(), pre + dk + semi + d5 + semi + dc, fin);
}

/// Feeding the sequence that selects foreground `c` sets the foreground.
proof fn lemma_feed_fg(g: GridView, c: u8)
    ensures
        feed(g, ground(), ascii(fg_seq(c))) == (GridView { fg: c, ..g }, ground()),
{
    if 30 <= c <= 37 {
        lemma_feed_sgr(g, c);
    } else {
        lemma_feed_ext(g, 38, c);
        let vs = seq![38u16, 5u16, c as u16];
        assert(sgr_from(c, g.bg, vs, 3) == (c, g.bg));
    }
}

/// Feeding the sequence that selects background `c` sets the background.
proof fn lemma_feed_bg(g: GridView, c: u8)
    ensures
        feed(g, ground(), ascii(bg_seq(c))) == (GridView { bg: c, ..g }, ground()),
{
    if 40 <= c <= 47 {
        lemma_feed_sgr(g, c);
    } else {
        lemma_feed_ext(g, 48, c);
        let vs = seq![48u16, 5u16, c as u16];
        assert(sgr_from(g.fg, c, vs, 3) == (g.fg, c));
    }
}

/// Feeding an SGR sequence in ground state applies the code to the colours.
proof fn lemma_feed_sgr(g: GridView, c: u8)
    ensures
        feed(g, ground(), ascii(sgr_seq(c))).1 == ground(),
        feed(g, ground(), ascii(sgr_seq(c))).0 == ({
            let r = sgr_code(g.fg, g.bg, c as u16);
            GridView { fg: r.0, bg: r.1, ..g }
        }),
{
    let d = ascii(decimal(c as nat));
    let pre = seq![0x1Bu8, 0x5Bu8];
    lemma_ascii_concat(seq!['\x1b', '['], decimal(c as nat));
    lemma_ascii_concat(seq!['\x1b', '['] + decimal(c as nat), seq!['m']);
    assert(ascii(seq!['\x1b', '[']) =~= pre);
    assert(ascii(seq!['m']) =~= seq![0x6Du8]);
    assert(ascii(sgr_seq(c)) == pre + d + seq![0x6Du8]);
    assert(pre.drop_last() =~= seq![0x1Bu8]);
    assert(seq![0x1Bu8].drop_last() =~= Seq::<u8>::empty());
    assert(feed(g, ground(), Seq::<u8>::empty()) == (g, ground()));
    assert(seq![0x1Bu8].last() == 0x1Bu8);
    assert(step(g, ground(), 0x1Bu8) == (g, ground().in_state(VtState::Escape)));
    assert(feed(g, ground(), seq![0x1Bu8]) == (g, ground().in_state(VtState::Escape)));
    assert(pre.last() == 0x5Bu8);
    assert(feed(g, ground(), pre) == (g, csi_entry()));
    lemma_feed_concat(g, ground(), pre, d);
    lemma_feed_digits(g, c as nat);
    assert(feed(g, ground(), pre + d) == (g, collecting(c as u16)));
    lemma_feed_concat(g, ground(), pre + d, seq![0x6Du8]);
    assert(seq![0x6Du8].drop_last() =~= Seq::<u8>::empty());
    assert(seq![0x6Du8].last() == 0x6Du8);
    assert(feed(g, collecting(c as u16), Seq::<u8>::empty()) == (g, collecting(c as u16)));
    let ps = seq![Some(c as u16)];
    assert(collecting(c as u16).final_params() =~= ps);
    let vs = seq![c as u16];
    assert(param_values(ps) =~= vs);
    let r = sgr_code(g.fg, g.bg, c as u16);
    assert(sgr_from(r.0, r.1, vs, 1) == r);
    assert(sgr_from(g.fg, g.bg, vs, 0) == r);
    assert(csi_effect(g, ps, 0x6Du8) == (GridView { fg: r.0, bg: r.1, ..g }));
    assert(step(g, collecting(c as u16), 0x6Du8) == (GridView { fg: r.0, bg: r.1, ..g }, ground()));
}

proof fn lemma_feed_one(g: GridView, p: ParserView, b: u8)
    ensures
        feed(g, p, seq![b]) == step(g, p, b),
{
    assert(seq![b].drop_last() =~= Seq::<u8>::empty());
    assert(feed(g, p, Seq::<u8>::empty()) == (g, p));
}

proof fn lemma_ascii_chars_concat(a: Seq<char>, b: Seq<char>)
    requires
        is_ascii_chars(a),
        is_ascii_chars(b),
    ensures
        is_ascii_chars(a + b),
{
    assert forall|i: int| 0 <= i < (a + b).len() implies '\0' <= #[trigger] (a + b)[i] <= '\u{7f}' by {
        if i < a.len() {
            assert((a + b)[i] == a[i]);
        } else {
            assert((a + b)[i] == b[i - a.len()]);
        }
    }
}

proof fn lemma_sgr_seq_ascii(c: u8)
    ensures
        is_ascii_chars(sgr_seq(c)),
{
    lemma_decimal_ascii(c as nat);
    let d = decimal(c as nat);
    lemma_ascii_chars_concat(seq!['\x1b', '['], d);
    lemma_ascii_chars_concat(seq!['\x1b', '['] + d, seq!['m']);
}

proof fn lemma_ext_seq_ascii(k: u8, c: u8)
    ensures
        is_ascii_chars(ext_seq(k, c)),
{
    lemma_decimal_ascii(k as nat);
    lemma_decimal_ascii(5);
    lemma_decimal_ascii(c as nat);
    let s1 = seq!['\x1b', '['] + decimal(k as nat);
    lemma_ascii_chars_concat(seq!['\x1b', '['], decimal(k as nat));
    lemma_ascii_chars_concat(s1, seq![';']);
    lemma_ascii_chars_concat(s1 + seq![';'], decimal(5));
    lemma_ascii_chars_concat(s1 + seq![';'] + decimal(5), seq![';']);
    lemma_ascii_chars_concat(s1 + seq![';'] + decimal(5) + seq![';'], decimal(c as nat));
    lemma_ascii_chars_concat(
        s1 + seq![';'] + decimal(5) + seq![';'] + decimal(c as nat),
        seq!['m'],
    );
}

proof fn lemma_colour_seqs_ascii(c: u8)
    ensures
        is_ascii_chars(fg_seq(c)),
        is_ascii_chars(bg_seq(c)),
{
    lemma_sgr_seq_ascii(c);
    lemma_ext_seq_ascii(38, c);
    lemma_ext_seq_ascii(48, c);
}

proof fn lemma_width2(v: u32)
    requires
        0x80 <= v <= 0x7FF,
    ensures
        0xC2 <= leading_byte_width_2(v) <= 0xDF,
        0x80 <= last_continuation_byte(v) <= 0xBF,
        (leading_byte_width_2(v) as u32 - 0xC0) * 64 + (last_continuation_byte(v) as u32 - 0x80)
            == v,
{
    assert(0xC2 <= (0xC0 | ((v >> 6) & 0x1F) as u8) <= 0xDF) by (bit_vector)
        requires
            0x80 <= v <= 0x7FF,
    ;
    assert(0x80 <= (0x80 | (v & 0x3F) as u8) <= 0xBF) by (bit_vector);
    assert(((0xC0 | ((v >> 6) & 0x1F) as u8) as u32 - 0xC0) * 64 + ((0x80 | (v & 0x3F) as u8) as u32
        - 0x80) == v) by (bit_vector)
        requires
            0x80 <= v <= 0x7FF,
    ;
}

proof fn lemma_width3(v: u32)
    requires
        0x800 <= v <= 0xFFFF,
    ensures
        0xE0 <= leading_byte_width_3(v) <= 0xEF,
        0x80 <= second_last_continuation_byte(v) <= 0xBF,
        0x80 <= last_continuation_byte(v) <= 0xBF,
        ((leading_byte_width_3(v) as u32 - 0xE0) * 64 + (second_last_continuation_byte(v) as u32
            - 0x80)) * 64 + (last_continuation_byte(v) as u32 - 0x80) == v,
{
    assert(0xE0 <= (0xE0 | ((v >> 12) & 0x0F) as u8) <= 0xEF) by (bit_vector);
    assert(0x80 <= (0x80 | ((v >> 6) & 0x3F) as u8) <= 0xBF) by (bit_vector);
    assert(0x80 <= (0x80 | (v & 0x3F) as u8) <= 0xBF) by (bit_vector);
    assert((((0xE0 | ((v >> 12) & 0x0F) as u8) as u32 - 0xE0) * 64 + ((0x80 | ((v >> 6) & 0x3F) as u8)
        as u32 - 0x80)) * 64 + ((0x80 | (v & 0x3F) as u8) as u32 - 0x80) == v) by (bit_vector)
        requires
            0x800 <= v <= 0xFFFF,
    ;
}

proof fn lemma_width4(v: u32)
    requires
        0x10000 <= v <= 0x10FFFF,
    ensures
        0xF0 <= leading_byte_width_4(v) <= 0xF4,
        0x80 <= third_last_continuation_byte(v) <= 0xBF,
        0x80 <= second_last_continuation_byte(v) <= 0xBF,
        0x80 <= last_continuation_byte(v) <= 0xBF,
        (((leading_byte_width_4(v) as u32 - 0xF0) * 64 + (third_last_continuation_byte(v) as u32
            - 0x80)) * 64 + (second_last_continuation_byte(v) as u32 - 0x80)) * 64 + (
        last_continuation_byte(v) as u32 - 0x80) == v,
{
    assert(0xF0 <= (0xF0 | ((v >> 18) & 0x7) as u8) <= 0xF4) by (bit_vector)
        requires
            0x10000 <= v <= 0x10FFFF,
    ;
    assert(0x80 <= (0x80 | ((v >> 12) & 0x3F) as u8) <= 0xBF) by (bit_vector);
    assert(0x80 <= (0x80 | ((v >> 6) & 0x3F) as u8) <= 0xBF) by (bit_vector);
    assert(0x80 <= (0x80 | (v & 0x3F) as u8) <= 0xBF) by (bit_vector);
    assert(((((0xF0 | ((v >> 18) & 0x7) as u8) as u32 - 0xF0) * 64 + ((0x80 | ((v >> 12) & 0x3F) as u8)
        as u32 - 0x80)) * 64 + ((0x80 | ((v >> 6) & 0x3F) as u8) as u32 - 0x80)) * 64 + ((0x80 | (v
        & 0x3F) as u8) as u32 - 0x80) == v) by (bit_vector)
        requires
            0x10000 <= v <= 0x10FFFF,
    ;
}

proof fn lemma_feed_two(g: GridView, p: ParserView, a: u8, b: u8)
    ensures
        feed(g, p, seq![a, b]) == step(step(g, p, a).0, step(g, p, a).1, b),
{
    assert(seq![a, b].drop_last() =~= seq![a]);
    lemma_feed_one(g, p, a);
}

/// Feeding the UTF-8 bytes of a printable character in ground state prints
/// it.
proof fn lemma_feed_char(g: GridView, c: char)
    requires
        0x20 <= c as u32,
        c as u32 != 0x7F,
    ensures
        feed(g, ground(), encode_utf8(seq![c])) == (g.printed_char(c), ground()),
{
    let v = c as u32;
    let bytes = encode_scalar(v);
    assert(seq![c].drop_first() =~= Seq::<char>::empty());
    assert(encode_utf8(Seq::<char>::empty()) =~= Seq::<u8>::empty());
    assert(seq![c][0] == c);
    assert(encode_utf8(seq![c]) == bytes + encode_utf8(Seq::<char>::empty()));
    assert(encode_utf8(seq![c]) =~= bytes);
    vstd::utf8::char_u32_cast(c, v);
    if v < 0x80 {
        assert((v & 0x7F) as u8 == v as u8) by (bit_vector)
            requires
                v < 0x80,
        ;
        assert(bytes == seq![v as u8]);
        assert(byte_char(v as u8) == c);
        lemma_feed_one(g, ground(), v as u8);
    } else if v <= 0x7FF {
        lemma_width2(v);
        let b1 = leading_byte_width_2(v);
        let b2 = last_continuation_byte(v);
        assert(bytes == seq![b1, b2]);
        lemma_feed_two(g, ground(), b1, b2);
        let p1 = step(g, ground(), b1).1;
        assert(p1.utf8_need == 1 && p1.utf8_min == 0x80);
        assert(decoded_char(v, 0x80) == c);
    } else if v <= 0xFFFF {
        lemma_width3(v);
        let b1 = leading_byte_width_3(v);
        let b2 = second_last_continuation_byte(v);
        let b3 = last_continuation_byte(v);
        assert(bytes == seq![b1, b2, b3]);
        assert(bytes.drop_last() =~= seq![b1, b2]);
        lemma_feed_two(g, ground(), b1, b2);
        let s1 = step(g, ground(), b1);
        assert(s1.0 == g && s1.1.utf8_need == 2 && s1.1.utf8_min == 0x800);
        assert(s1.1.utf8_acc == (b1 as u32 - 0xE0));
        let s2 = step(s1.0, s1.1, b2);
        assert(s2.0 == g && s2.1.utf8_need == 1 && s2.1.utf8_min == 0x800);
        assert(s2.1.utf8_acc == (b1 as u32 - 0xE0) * 64 + (b2 as u32 - 0x80));
        assert(decoded_char(v, 0x800) == c);
        assert(step(s2.0, s2.1, b3) == (g.printed_char(c), ground()));
    } else {
        lemma_width4(v);
        let b1 = leading_byte_width_4(v);
        let b2 = third_last_continuation_byte(v);
        let b3 = second_last_continuation_byte(v);
        let b4 = last_continuation_byte(v);
        assert(bytes == seq![b1, b2, b3, b4]);
        assert(bytes.drop_last() =~= seq![b1, b2, b3]);
        assert(bytes.drop_last().drop_last() =~= seq![b1, b2]);
        lemma_feed_two(g, ground(), b1, b2);
        let s1 = step(g, ground(), b1);
        assert(s1.0 == g && s1.1.utf8_need == 3 && s1.1.utf8_min == 0x10000);
        assert(s1.1.utf8_acc == (b1 as u32 - 0xF0));
        let s2 = step(s1.0, s1.1, b2);
        assert(s2.0 == g && s2.1.utf8_need == 2 && s2.1.utf8_min == 0x10000);
        assert(s2.1.utf8_acc == (b1 as u32 - 0xF0) * 64 + (b2 as u32 - 0x80));
        let s3 = step(s2.0, s2.1, b3);
        assert(s3.0 == g && s3.1.utf8_need == 1 && s3.1.utf8_min == 0x10000);
        assert(s3.1.utf8_acc == ((b1 as u32 - 0xF0) * 64 + (b2 as u32 - 0x80)) * 64 + (b3 as u32
            - 0x80));
        assert(decoded_char(v, 0x10000) == c);
        assert(step(s3.0, s3.1, b4) == (g.printed_char(c), ground()));
        assert(feed(g, ground(), seq![b1, b2, b3]) == s3);
    }
}

/// Grids whose styled content replays into a blank grid: at most two rows
/// and printable characters. With more rows the newline that ends a full row
/// moves the cursor down once more, so the next row is written one row too
/// low; a control character in a cell would be executed, not printed.
pub open spec fn replayable(g: GridView) -> bool {
    &&& g.wf()
    &&& g.height <= 2
    &&& forall|i: int|
        0 <= i < g.cells.len() ==> 0x20 <= (#[trigger] g.cells[i]).ch as u32 && g.cells[i].ch
            as u32 != 0x7F
}

/// The UTF-8 bytes of two character sequences one after the other.
proof fn lemma_encode_concat(a: Seq<char>, b: Seq<char>)
    ensures
        encode_utf8(a + b) == encode_utf8(a) + encode_utf8(b),
    decreases a.len(),
{
    if a.len() == 0 {
        assert(a + b =~= b);
        assert(encode_utf8(a) =~= Seq::<u8>::empty());
        assert(encode_utf8(a) + encode_utf8(b) =~= encode_utf8(b));
    } else {
        lemma_encode_concat(a.drop_first(), b);
        assert((a + b).drop_first() =~= a.drop_first() + b);
        assert((a + b)[0] == a[0]);
    }
}

/// The UTF-8 bytes of an ASCII sequence are its characters' codes.
proof fn lemma_encode_ascii(s: Seq<char>)
    requires
        is_ascii_chars(s),
    ensures
        encode_utf8(s) == ascii(s),
{
    is_ascii_chars_encode_utf8(s);
    assert(encode_utf8(s) =~= ascii(s));
}

/// Cell `i` of `f` shows the character and foreground of cell `i` of `g`,
/// and its background unless `i` is the cursor cell of `g`.
pub open spec fn same_cell(g: GridView, f: GridView, i: int) -> bool {
    &&& f.cells[i].ch == g.cells[i].ch
    &&& f.cells[i].fg == g.cells[i].fg
    &&& i != g.cursor_index() ==> f.cells[i].bg == g.cells[i].bg
}

/// Feeding an optional foreground sequence, then an optional background
/// one, in ground state.
proof fn lemma_feed_colours(rg: GridView, fg: u8, bg: u8, emit_fg: bool, emit_bg: bool) -> (out: GridView)
    ensures
        feed(
            rg,
            ground(),
            ascii(if emit_fg { fg_seq(fg) } else { Seq::empty() }) + ascii(
                if emit_bg { bg_seq(bg) } else { Seq::empty() },
            ),
        ) == (out, ground()),
        out == (GridView {
            fg: if emit_fg { fg } else { rg.fg },
            bg: if emit_bg { bg } else { rg.bg },
            ..rg
        }),
{
    let a = ascii(if emit_fg { fg_seq(fg) } else { Seq::empty() });
    let b = ascii(if emit_bg { bg_seq(bg) } else { Seq::empty() });
    let g1 = GridView { fg: if emit_fg { fg } else { rg.fg }, ..rg };
    if emit_fg {
        lemma_feed_fg(rg, fg);
    } else {
        assert(a =~= Seq::<u8>::empty());
    }
    assert(feed(rg, ground(), a) == (g1, ground()));
    let g2 = GridView { bg: if emit_bg { bg } else { rg.bg }, ..g1 };
    if emit_bg {
        lemma_feed_bg(g1, bg);
    } else {
        assert(b =~= Seq::<u8>::empty());
    }
    assert(feed(g1, ground(), b) == (g2, ground()));
    lemma_feed_concat(rg, ground(), a, b);
    g2
}

/// The background the styled text gives cell `k`.
pub open spec fn shown_bg(g: GridView, k: int) -> u8 {
    if k == g.cursor_index() {
        47
    } else {
        g.cells[k].bg
    }
}

/// The styled text of cell `k` alone: its colour changes, its character and,
/// at the end of a row, a newline.
pub open spec fn cell_text(g: GridView, k: int, x: int, pfg: u8, pbg: u8) -> Seq<char> {
    let c = g.cells[k];
    let bg = shown_bg(g, k);
    (if c.fg != pfg { fg_seq(c.fg) } else { Seq::empty() }) + (if bg != pbg {
        bg_seq(bg)
    } else {
        Seq::empty()
    }) + seq![c.ch] + (if x + 1 == g.width { seq!['\n'] } else { Seq::empty() })
}

/// Replaying the text of one cell writes that cell and moves the cursor on.
proof fn lemma_replay_cell(g: GridView, k: int, r: int, x: int, pfg: u8, pbg: u8, rg: GridView) -> (out: GridView)
    requires
        replayable(g),
        0 <= k < g.cells.len(),
        0 <= x < g.width,
        0 <= r < g.height,
        k == r * g.width + x,
        rg.wf(),
        rg.width == g.width,
        rg.height == g.height,
        rg.fg == pfg,
        rg.bg == pbg,
        rg.col == x,
        rg.row == r,
    ensures
        feed(rg, ground(), encode_utf8(cell_text(g, k, x, pfg, pbg))) == (out, ground()),
        out.wf(),
        out.width == g.width,
        out.height == g.height,
        out.fg == g.cells[k].fg,
        out.bg == shown_bg(g, k),
        out.cells == rg.cells.update(
            k,
            CharacterCell {
                ch: g.cells[k].ch,
                fg: g.cells[k].fg,
                bg: shown_bg(g, k),
                attrs: rg.cells[k].attrs,
            },
        ),
        x + 1 < g.width ==> out.col == x + 1 && out.row == r,
        x + 1 == g.width && r + 1 < g.height ==> out.col == 0 && out.row == r + 1,
        x + 1 == g.width && r + 1 == g.height ==> out.col == x && out.row == r,
{
    let w = g.width;
    let h = g.height;
    let c = g.cells[k];
    let bg = shown_bg(g, k);
    let emit_a = c.fg != pfg;
    let emit_b = bg != pbg;
    let a = if emit_a { fg_seq(c.fg) } else { Seq::empty() };
    let b = if emit_b { bg_seq(bg) } else { Seq::empty() };
    let eol = x + 1 == w;
    let e = if eol { seq!['\n'] } else { Seq::<char>::empty() };
    lemma_encode_concat(a, b);
    lemma_encode_concat(a + b, seq![c.ch]);
    lemma_encode_concat(a + b + seq![c.ch], e);
    lemma_colour_seqs_ascii(c.fg);
    lemma_colour_seqs_ascii(bg);
    assert(is_ascii_chars(a));
    assert(is_ascii_chars(b));
    assert(is_ascii_chars(e));
    lemma_encode_ascii(a);
    lemma_encode_ascii(b);
    lemma_encode_ascii(e);
    let ba = encode_utf8(a);
    let bb = encode_utf8(b);
    let bc = encode_utf8(seq![c.ch]);
    let be = encode_utf8(e);
    let g2 = lemma_feed_colours(rg, c.fg, bg, emit_a, emit_b);
    lemma_feed_char(g2, c.ch);
    lemma_index_in_grid(r, x, w, h);
    let g3 = g2.printed_char(c.ch);
    lemma_feed_concat(rg, ground(), ba + bb, bc);
    let g4 = if eol { g3.executed(0x0A) } else { g3 };
    if eol {
        assert(be =~= seq![0x0Au8]);
        lemma_feed_one(g3, ground(), 0x0Au8);
    } else {
        assert(be =~= Seq::<u8>::empty());
    }
    lemma_feed_concat(rg, ground(), ba + bb + bc, be);
    g4
}

/// Replaying the content from cell `k` on, with the replay grid `rg` standing
/// where the replay has brought it, ends with every cell shown as in `g` and
/// the cursor in the bottom-right corner.
proof fn lemma_replay_from(g: GridView, k: int, r: int, x: int, pfg: u8, pbg: u8, rg: GridView)
    requires
        replayable(g),
        0 <= k <= g.cells.len(),
        0 <= x < g.width,
        0 <= r,
        k == r * g.width + x || (k == g.cells.len() && x == 0),
        rg.wf(),
        rg.width == g.width,
        rg.height == g.height,
        rg.fg == pfg,
        rg.bg == pbg,
        k < g.cells.len() ==> rg.col == x && rg.row == r,
        k == g.cells.len() ==> rg.col == g.width - 1 && rg.row == g.height - 1,
        forall|i: int| 0 <= i < k ==> same_cell(g, rg, i),
    ensures
        ({
            let f = feed(rg, ground(), encode_utf8(content_from(g, k, x, pfg, pbg)));
            &&& f.0.wf()
            &&& f.0.width == g.width
            &&& f.0.height == g.height
            &&& f.0.col == g.width - 1
            &&& f.0.row == g.height - 1
            &&& forall|i: int| 0 <= i < g.cells.len() ==> same_cell(g, f.0, i)
        }),
    decreases g.cells.len() - k,
{
    let n = g.cells.len() as int;
    let w = g.width;
    let h = g.height;
    if k >= n {
        assert(encode_utf8(content_from(g, k, x, pfg, pbg)) =~= Seq::<u8>::empty());
        return;
    }
    assert(k == r * w + x);
    lemma_row_bounds(k, r, x, w, h, n);
    let c = g.cells[k];
    let bg = shown_bg(g, k);
    let eol = x + 1 == w;
    let nx = if eol { 0 } else { x + 1 };
    let nr = if eol { r + 1 } else { r };
    let head = cell_text(g, k, x, pfg, pbg);
    let rest = content_from(g, k + 1, nx, c.fg, bg);
    assert(content_from(g, k, x, pfg, pbg) == head + rest);
    lemma_encode_concat(head, rest);
    let g4 = lemma_replay_cell(g, k, r, x, pfg, pbg, rg);
    lemma_feed_concat(rg, ground(), encode_utf8(head), encode_utf8(rest));
    assert forall|i: int| 0 <= i < k + 1 implies same_cell(g, g4, i) by {
        if i < k {
            assert(same_cell(g, rg, i));
            assert(g4.cells[i] == rg.cells[i]);
        } else {
            assert(g4.cells[k] == CharacterCell { ch: c.ch, fg: c.fg, bg, attrs: rg.cells[k].attrs });
            assert(k != g.cursor_index() ==> bg == c.bg);
        }
    }
    lemma_replay_from(g, k + 1, nr, nx, c.fg, bg, g4);
}

/// Where cell `k = r * w + x` lies in a `w` by `h` grid, and where the next
/// one does.
proof fn lemma_row_bounds(k: int, r: int, x: int, w: int, h: int, n: int)
    requires
        k == r * w + x,
        0 <= x < w,
        0 <= r,
        0 <= k < n,
        n == w * h,
    ensures
        r < h,
        x + 1 < w ==> k + 1 < n,
        x + 1 == w ==> k + 1 == (r + 1) * w,
        x + 1 == w && r + 1 < h ==> k + 1 < n,
        x + 1 == w && r + 1 == h ==> k + 1 == n,
{
    assert(r < h) by (nonlinear_arith)
        requires
            k == r * w + x,
            k < n,
            n == w * h,
            0 <= x < w,
            0 <= r,
    ;
    assert(r * w + w <= w * h) by (nonlinear_arith)
        requires
            0 <= r < h,
            0 <= w,
    ;
    assert((r + 1) * w == r * w + w) by (nonlinear_arith);
    if x + 1 == w && r + 1 < h {
        assert((r + 1) * w + w <= w * h) by (nonlinear_arith)
            requires
                0 <= r + 1 < h,
                0 <= w,
        ;
    }
    if r + 1 == h {
        assert((r + 1) * w == w * h) by (nonlinear_arith)
            requires
                r + 1 == h,
        ;
    }
}

proof fn lemma_index_in_grid(r: int, x: int, w: int, h: int)
    requires
        0 <= r < h,
        0 <= x < w,
    ensures
        0 <= r * w + x < w * h,
{
    assert(0 <= r * w + x < w * h) by (nonlinear_arith)
        requires
            0 <= r < h,
            0 <= x < w,
    ;
}

/// Feeding the bytes of a grid's styled content into a blank grid of the
/// same size reproduces the character and foreground of every cell, and the
/// background of every cell but the cursor's; the replay ends with the cursor
/// in the bottom-right corner, so it reproduces the cursor when it stood
/// there.
pub proof fn lemma_content_round_trip(g: GridView)
    requires
        replayable(g),
    ensures
        ({
            let f = feed(blank_grid(g.width, g.height), ground(), encode_utf8(content_of(g))).0;
            &&& f.width == g.width
            &&& f.height == g.height
            &&& f.col == g.width - 1
            &&& f.row == g.height - 1
            &&& (g.col == g.width - 1 && g.row == g.height - 1) ==> (f.col == g.col && f.row
                == g.row)
            &&& forall|i: int|
                0 <= i < g.cells.len() ==> #[trigger] f.cells[i].ch == g.cells[i].ch
                    && f.cells[i].fg == g.cells[i].fg
            &&& forall|i: int|
                0 <= i < g.cells.len() && i != g.cursor_index() ==> #[trigger] f.cells[i].bg
                    == g.cells[i].bg
        }),
{
    let blank = blank_grid(g.width, g.height);
    let t = content_of(g);
    assert(g.cells.len() >= 1) by (nonlinear_arith)
        requires
            g.cells.len() == g.width * g.height,
            g.width >= 1,
            g.height >= 1,
    ;
    assert(blank.wf());
    lemma_replay_from(g, 0, 0, 0, DEFAULT_FG, DEFAULT_BG, blank);
    let f = feed(blank, ground(), encode_utf8(t)).0;
    assert forall|i: int| 0 <= i < g.cells.len() implies #[trigger] f.cells[i].ch == g.cells[i].ch
        && f.cells[i].fg == g.cells[i].fg by {
        assert(same_cell(g, f, i));
    }
    assert forall|i: int| 0 <= i < g.cells.len() && i != g.cursor_index() implies #[trigger] f.cells[i].bg
        == g.cells[i].bg by {
        assert(same_cell(g, f, i));
    }
}

} // verus!
