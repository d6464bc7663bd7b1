use termui::grid::{CellGrid, CharacterCell};
use termui::parser::{VtParser, VtState};

fn fed(width: u16, height: u16, bytes: &[u8]) -> (CellGrid, VtParser) {
    let mut grid = CellGrid::new(width, height);
    let mut parser = VtParser::new();
    parser.advance_all(&mut grid, bytes);
    (grid, parser)
}

fn ch(grid: &CellGrid, col: usize, row: usize) -> char {
    grid.cell(col, row).unwrap().ch
}

#[test]
fn cursor_position_then_print() {
    let (grid, _) = fed(60, 15, b"\x1B[2;3Hx");
    assert_eq!(ch(&grid, 2, 1), 'x');
    assert_eq!(grid.cursor(), (3, 1));
}

#[test]
fn sgr_foreground_and_reset() {
    let (grid, _) = fed(60, 15, b"\x1B[31mA\x1B[0mB");
    let a = grid.cell(0, 0).unwrap();
    let b = grid.cell(1, 0).unwrap();
    assert_eq!(a.ch, 'A');
    assert_eq!(a.fg, 31);
    assert_eq!(b.ch, 'B');
    assert_eq!(b.fg, 37);
    assert_eq!(b.bg, 40);
}

#[test]
fn sgr_background_and_extended_colours() {
    let (grid, _) = fed(10, 2, b"\x1B[44;33mA\x1B[38;5;200;48;5;17mB\x1B[39;49mC\x1B[mD");
    assert_eq!(grid.cell(0, 0).unwrap(), CharacterCell { ch: 'A', fg: 33, bg: 44, attrs: 0 });
    assert_eq!(grid.cell(1, 0).unwrap(), CharacterCell { ch: 'B', fg: 200, bg: 17, attrs: 0 });
    assert_eq!(grid.cell(2, 0).unwrap(), CharacterCell { ch: 'C', fg: 37, bg: 40, attrs: 0 });
    assert_eq!(grid.cell(3, 0).unwrap(), CharacterCell { ch: 'D', fg: 37, bg: 40, attrs: 0 });
}

#[test]
fn c0_controls() {
    let (grid, _) = fed(10, 3, b"ab\x08c\r\nd\x07");
    assert_eq!(ch(&grid, 0, 0), 'a');
    assert_eq!(ch(&grid, 1, 0), 'c');
    assert_eq!(ch(&grid, 0, 1), 'd');
    assert_eq!(grid.cursor(), (1, 1));
    let mut grid = grid;
    assert!(grid.take_bell());
    assert!(!grid.take_bell());
}

#[test]
fn line_feed_clamps_at_bottom() {
    let (grid, _) = fed(4, 2, b"\n\n\n\nz");
    assert_eq!(grid.cursor(), (1, 1));
    assert_eq!(ch(&grid, 0, 1), 'z');
}

#[test]
fn print_wraps_at_right_edge_and_stops_in_corner() {
    let (grid, _) = fed(3, 2, b"abcd");
    assert_eq!(ch(&grid, 2, 0), 'c');
    assert_eq!(ch(&grid, 0, 1), 'd');
    assert_eq!(grid.cursor(), (1, 1));
    let (grid, _) = fed(3, 2, b"abcdefgh");
    assert_eq!(ch(&grid, 2, 1), 'h');
    assert_eq!(grid.cursor(), (2, 1));
    assert_eq!(grid.printed_chars(), 8);
}

#[test]
fn cursor_moves_clamp() {
    let (grid, _) = fed(10, 5, b"\x1B[3B\x1B[4C");
    assert_eq!(grid.cursor(), (4, 3));
    let (grid, _) = fed(10, 5, b"\x1B[99B\x1B[99C");
    assert_eq!(grid.cursor(), (9, 4));
    let (grid, _) = fed(10, 5, b"\x1B[3;4H\x1B[9A\x1B[9D");
    assert_eq!(grid.cursor(), (0, 0));
    let (grid, _) = fed(10, 5, b"\x1B[3;4H\x1B[A\x1B[D");
    assert_eq!(grid.cursor(), (2, 1));
    let (grid, _) = fed(10, 5, b"\x1B[3;4H\x1B[E");
    assert_eq!(grid.cursor(), (0, 3));
    let (grid, _) = fed(10, 5, b"\x1B[3;4H\x1B[2F");
    assert_eq!(grid.cursor(), (0, 0));
    let (grid, _) = fed(10, 5, b"\x1B[3;4H\x1B[7G");
    assert_eq!(grid.cursor(), (6, 2));
    let (grid, _) = fed(10, 5, b"\x1B[3;4f\x1B[H");
    assert_eq!(grid.cursor(), (0, 0));
    let (grid, _) = fed(10, 5, b"\x1B[200;300H");
    assert_eq!(grid.cursor(), (9, 4));
}

#[test]
fn erase_in_display() {
    let (grid, _) = fed(3, 2, b"abcdef\x1B[1;2H\x1B[0J");
    assert_eq!(ch(&grid, 0, 0), 'a');
    assert_eq!(ch(&grid, 1, 0), ' ');
    assert_eq!(ch(&grid, 2, 1), ' ');
    let (grid, _) = fed(3, 2, b"abcdef\x1B[2;2H\x1B[1J");
    assert_eq!(ch(&grid, 0, 0), ' ');
    assert_eq!(ch(&grid, 1, 1), ' ');
    assert_eq!(ch(&grid, 2, 1), 'f');
    let (grid, _) = fed(3, 2, b"abcdef\x1B[1;2H\x1B[2J");
    assert_eq!(ch(&grid, 1, 0), ' ');
    assert_eq!(ch(&grid, 2, 0), 'c');
}

#[test]
fn erase_in_line() {
    let (grid, _) = fed(3, 2, b"abcdef\x1B[2;2H\x1B[0K");
    assert_eq!(ch(&grid, 0, 1), 'd');
    assert_eq!(ch(&grid, 1, 1), ' ');
    assert_eq!(ch(&grid, 2, 1), ' ');
    assert_eq!(ch(&grid, 2, 0), 'c');
    let (grid, _) = fed(3, 2, b"abcdef\x1B[2;2H\x1B[1K");
    assert_eq!(ch(&grid, 0, 1), ' ');
    assert_eq!(ch(&grid, 1, 1), ' ');
    assert_eq!(ch(&grid, 2, 1), 'f');
    let (grid, _) = fed(3, 2, b"abcdef\x1B[2;2H\x1B[2K");
    assert_eq!(ch(&grid, 2, 1), ' ');
    assert_eq!(ch(&grid, 0, 0), 'a');
}

#[test]
fn erased_cells_take_default_colours() {
    let (grid, _) = fed(3, 1, b"\x1B[31;42mab\x1B[1;1H\x1B[0K");
    assert_eq!(grid.cell(0, 0).unwrap(), CharacterCell { ch: ' ', fg: 37, bg: 40, attrs: 0 });
}

#[test]
fn unknown_and_private_sequences_are_dropped() {
    let (grid, parser) = fed(10, 2, b"\x1B[?25la\x1B[5Xb\x1B(c\x1B]0;title\x07d\x1B]2;t\x1B\\e");
    assert_eq!(ch(&grid, 0, 0), 'a');
    assert_eq!(ch(&grid, 1, 0), 'b');
    assert_eq!(ch(&grid, 2, 0), 'c');
    assert_eq!(ch(&grid, 3, 0), 'd');
    assert_eq!(ch(&grid, 4, 0), 'e');
    assert_eq!(parser.state(), VtState::Ground);
}

#[test]
fn byte_after_escape_leaves_escape_state() {
    for b in 0u8..=255 {
        let mut grid = CellGrid::new(4, 4);
        let mut parser = VtParser::new();
        parser.advance(&mut grid, 0x1B);
        assert_eq!(parser.state(), VtState::Escape);
        parser.advance(&mut grid, b);
        if b == 0x1B {
            assert_eq!(parser.state(), VtState::Escape);
        } else {
            assert_ne!(parser.state(), VtState::Escape);
        }
    }
}

#[test]
fn any_bytes_keep_grid_and_cursor_in_bounds() {
    let mut grid = CellGrid::new(7, 3);
    let mut parser = VtParser::new();
    let mut seed: u32 = 12345;
    for _ in 0..20000 {
        seed = seed.wrapping_mul(1103515245).wrapping_add(12345);
        let b = (seed >> 16) as u8;
        parser.advance(&mut grid, b);
        let (col, row) = grid.cursor();
        assert!(col < 7 && row < 3);
        assert!(grid.cell(6, 2).is_some());
        assert!(grid.cell(7, 2).is_none());
    }
}

#[test]
fn resize_gives_blank_grid_and_resets_cursor() {
    let (mut grid, _) = fed(5, 5, b"hello\x1B[3;3H");
    grid.resize(4, 2);
    assert_eq!(grid.width(), 4);
    assert_eq!(grid.height(), 2);
    assert_eq!(grid.cursor(), (0, 0));
    assert_eq!(ch(&grid, 0, 0), ' ');
    assert!(grid.cell(3, 1).is_some());
    assert!(grid.cell(4, 1).is_none());
}

#[test]
fn long_parameters_saturate() {
    let (grid, _) = fed(10, 5, b"\x1B[999999999B");
    assert_eq!(grid.cursor(), (0, 4));
}

#[test]
fn second_escape_restarts_the_sequence() {
    let (grid, parser) = fed(10, 5, b"\x1B[3;4H\x1B\x1B[Ax");
    assert_eq!(ch(&grid, 3, 1), 'x');
    assert_eq!(ch(&grid, 0, 0), ' ');
    assert_eq!(parser.state(), VtState::Ground);
}

#[test]
fn explicit_zero_parameter_is_not_a_default() {
    let (grid, _) = fed(10, 5, b"\x1B[3;4H\x1B[0A\x1B[0D");
    assert_eq!(grid.cursor(), (3, 2));
    let (grid, _) = fed(10, 5, b"\x1B[3;4H\x1B[0E");
    assert_eq!(grid.cursor(), (0, 2));
    let (grid, _) = fed(10, 5, b"\x1B[3;4H\x1B[;2H");
    assert_eq!(grid.cursor(), (1, 0));
}

#[test]
fn absent_parameter_defaults_to_one() {
    // `CSI m` stands for `CSI 1 m`, a code the grid ignores.
    let (grid, _) = fed(10, 2, b"\x1B[31m\x1B[mA");
    assert_eq!(grid.cell(0, 0).unwrap().fg, 31);
    // `CSI J` stands for `CSI 1 J`: from the start to the cursor.
    let (grid, _) = fed(3, 2, b"abcdef\x1B[1;2H\x1B[J");
    assert_eq!(ch(&grid, 0, 0), ' ');
    assert_eq!(ch(&grid, 1, 0), ' ');
    assert_eq!(ch(&grid, 2, 0), 'c');
}

#[test]
fn utf8_text_is_decoded() {
    let (grid, _) = fed(10, 2, "h\u{e9}\u{20ac}\u{1F600}!".as_bytes());
    assert_eq!(ch(&grid, 0, 0), 'h');
    assert_eq!(ch(&grid, 1, 0), '\u{e9}');
    assert_eq!(ch(&grid, 2, 0), '\u{20ac}');
    assert_eq!(ch(&grid, 3, 0), '\u{1F600}');
    assert_eq!(ch(&grid, 4, 0), '!');
    assert_eq!(grid.cursor(), (5, 0));
}

#[test]
fn malformed_utf8_prints_replacement() {
    let (grid, _) = fed(10, 2, b"\xC3a\xFF\xC0\x80\xE0\x80\x80b");
    assert_eq!(ch(&grid, 0, 0), '\u{FFFD}');
    assert_eq!(ch(&grid, 1, 0), 'a');
    assert_eq!(ch(&grid, 2, 0), '\u{FFFD}');
    assert_eq!(ch(&grid, 3, 0), '\u{FFFD}');
    assert_eq!(ch(&grid, 4, 0), '\u{FFFD}');
    assert_eq!(ch(&grid, 5, 0), '\u{FFFD}');
    assert_eq!(ch(&grid, 6, 0), 'b');
}
