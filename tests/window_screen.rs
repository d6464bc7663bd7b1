use termui::screen::Screen;
use termui::window::{KeyCode, SimpleTerminalWindow};

fn window(x: u16, y: u16, title: &str) -> SimpleTerminalWindow {
    SimpleTerminalWindow::new(x, y, 60, 15, title.to_string())
}

fn cell_char(w: &SimpleTerminalWindow, col: usize, row: usize) -> char {
    w.get_cell(col, row).unwrap().ch
}

fn titles(s: &Screen) -> Vec<String> {
    s.containers.iter().map(|w| w.get_title().unwrap().to_string()).collect()
}

#[test]
fn child_output_through_queue() {
    let mut w = window(5, 5, "1");
    w.queue().push(b"hello\r\n".to_vec());
    w.queue().push(b"world".to_vec());
    w.update_content();
    for (i, c) in "hello".chars().enumerate() {
        assert_eq!(cell_char(&w, i, 0), c);
    }
    for (i, c) in "world".chars().enumerate() {
        assert_eq!(cell_char(&w, i, 1), c);
    }
    assert_eq!(w.get_cursor(), (5, 1));
    assert_eq!(w.get_printed_chars(), 10);
    w.update_content();
    assert_eq!(w.get_cursor(), (5, 1));
}

#[test]
fn add_string_and_input_feed_the_parser() {
    let mut w = window(0, 0, "t");
    w.add_string("ab".to_string());
    w.input(b"\x1B[32mc");
    assert_eq!(cell_char(&w, 0, 0), 'a');
    assert_eq!(cell_char(&w, 2, 0), 'c');
    assert_eq!(w.get_cell(2, 0).unwrap().fg, 32);
    assert_eq!(w.get_colors(), (32, 40));
}

#[test]
fn get_content_styles_cursor_and_colour_changes() {
    let mut w = SimpleTerminalWindow::new(0, 0, 3, 2, "t".to_string());
    w.input(b"\x1B[31mab\x1B[0m\r\n");
    assert_eq!(
        w.get_content(),
        "\x1B[31mab\x1B[37m \n\x1B[47m \x1B[40m  \n"
    );
    let chars: String = w.get_content_chars().into_iter().collect();
    assert_eq!(chars, w.get_content());
}

#[test]
fn get_content_of_blank_grid() {
    let w = SimpleTerminalWindow::new(0, 0, 2, 2, "t".to_string());
    assert_eq!(w.get_content(), "\x1B[47m \x1B[40m \n  \n");
}

#[test]
fn set_size_twice_equals_once() {
    let mut a = window(5, 5, "a");
    a.input(b"some text");
    let mut b = window(5, 5, "b");
    b.input(b"other");
    a.set_size(20, 4);
    b.set_size(20, 4);
    b.set_size(20, 4);
    assert_eq!(a.get_content(), b.get_content());
    assert_eq!(a.get_cursor(), (0, 0));
    assert_eq!(b.get_width(), 20);
    assert_eq!(b.get_height(), 4);
}

#[test]
fn scroll_clamps_at_zero() {
    let mut w = window(5, 5, "1");
    w.on_scroll_y(3);
    assert_eq!(w.get_scroll_y(), 3);
    w.on_scroll_y(-5);
    assert_eq!(w.get_scroll_y(), 0);
    w.on_scroll_y(i16::MIN);
    assert_eq!(w.get_scroll_y(), 0);
}

#[test]
fn hit_test_includes_border() {
    let w = window(5, 5, "1");
    assert!(w.is_touching(4, 4));
    assert!(w.is_touching(65, 20));
    assert!(!w.is_touching(66, 20));
    assert!(!w.is_touching(3, 10));
    assert!(!w.is_touching(10, 21));
    let z = window(0, 0, "z");
    assert!(z.is_touching(0, 0));
}

#[test]
fn drag_right_edge_widens() {
    let mut w = window(5, 5, "1");
    w.on_mouse_down(65, 10);
    w.on_mouse_drag(75, 10);
    assert_eq!(w.get_width(), 70);
    assert_eq!(w.get_height(), 15);
    assert_eq!((w.get_x(), w.get_y()), (5, 5));
}

#[test]
fn drag_bottom_edge_heightens() {
    let mut w = window(5, 5, "1");
    w.on_mouse_down(20, 20);
    w.on_mouse_drag(20, 30);
    assert_eq!(w.get_height(), 25);
    assert_eq!(w.get_width(), 60);
}

#[test]
fn drag_title_moves() {
    let mut w = window(5, 5, "1");
    w.on_mouse_down(8, 4);
    w.on_mouse_drag(20, 12);
    assert_eq!((w.get_x(), w.get_y()), (17, 12));
    w.on_mouse_up(20, 12);
    assert_eq!(w.get_width(), 60);
}

#[test]
fn drag_to_non_positive_x_is_suppressed() {
    let mut w = window(5, 5, "1");
    w.on_mouse_down(8, 4);
    w.on_mouse_drag(3, 12);
    assert_eq!(w.get_x(), 5);
    assert_eq!(w.get_y(), 12);
}

#[test]
fn drag_elsewhere_does_nothing() {
    let mut w = window(5, 5, "1");
    w.on_mouse_down(20, 10);
    w.on_mouse_drag(40, 30);
    assert_eq!((w.get_x(), w.get_y(), w.get_width(), w.get_height()), (5, 5, 60, 15));
}

#[test]
fn key_encoding() {
    let w = window(5, 5, "1");
    assert_eq!(w.on_key(KeyCode::Left, false), vec![0x1B, 0x5B, 0x44]);
    assert_eq!(w.on_key(KeyCode::Right, false), vec![0x1B, 0x5B, 0x43]);
    assert_eq!(w.on_key(KeyCode::Up, false), vec![0x1B, 0x5B, 0x41]);
    assert_eq!(w.on_key(KeyCode::Down, false), vec![0x1B, 0x5B, 0x42]);
    assert_eq!(w.on_key(KeyCode::Enter, false), vec![0x0A]);
    assert_eq!(w.on_key(KeyCode::Backspace, false), vec![0x08]);
    assert_eq!(w.on_key(KeyCode::Char('q'), false), vec![b'q']);
    assert_eq!(w.on_key(KeyCode::Char('c'), true), vec![0x03]);
    assert_eq!(w.on_key(KeyCode::Other, false), Vec::<u8>::new());
}

#[test]
fn focus_follows_mouse_down() {
    let mut s = Screen::new();
    s.add_container(window(5, 5, "1"));
    s.add_container(window(15, 15, "2"));
    s.add_container(window(25, 25, "3"));
    s.check_top_container(40, 20);
    assert_eq!(titles(&s), vec!["1", "3", "2"]);
    // (70, 60) lies below every window, so nothing moves.
    s.check_top_container(70, 60);
    assert_eq!(titles(&s), vec!["1", "3", "2"]);
    s.check_top_container(70, 35);
    assert_eq!(titles(&s), vec!["1", "2", "3"]);
    assert_eq!(s.get_top_container().unwrap().get_title(), Some("3"));
    assert_eq!(s.get_container(0).unwrap().get_title(), Some("1"));
    assert!(s.get_container(3).is_none());
}

#[test]
fn focus_miss_is_noop() {
    let mut s = Screen::new();
    assert!(s.get_top_container().is_none());
    s.check_top_container(1, 1);
    s.add_container(window(5, 5, "1"));
    s.add_container(window(15, 15, "2"));
    s.check_top_container(200, 200);
    assert_eq!(titles(&s), vec!["1", "2"]);
}

#[test]
fn content_replays_into_blank_window() {
    let mut w = SimpleTerminalWindow::new(0, 0, 3, 2, "a".to_string());
    w.input(b"ab\x1B[31mcd\x1B[44mef");
    assert_eq!(w.get_cursor(), (2, 1));
    let content = w.get_content();
    let mut copy = SimpleTerminalWindow::new(0, 0, 3, 2, "b".to_string());
    copy.input(content.as_bytes());
    assert_eq!(copy.get_cursor(), w.get_cursor());
    for row in 0..2 {
        for col in 0..3 {
            let a = w.get_cell(col, row).unwrap();
            let b = copy.get_cell(col, row).unwrap();
            assert_eq!(a.ch, b.ch);
            assert_eq!(a.fg, b.fg);
            if (col, row) != (2, 1) {
                assert_eq!(a.bg, b.bg);
            }
        }
    }
}

#[test]
fn get_content_writes_extended_colours() {
    let mut w = SimpleTerminalWindow::new(0, 0, 3, 1, "t".to_string());
    w.input(b"a\x1B[38;5;200;48;5;17mb\r");
    assert_eq!(w.get_content(), "\x1B[47ma\x1B[38;5;200m\x1B[48;5;17mb\x1B[37m\x1B[40m \n");
}

#[test]
fn content_replays_colours_of_every_kind() {
    let mut w = SimpleTerminalWindow::new(0, 0, 4, 2, "a".to_string());
    w.input(b"\x1B[33;44mx\x1B[38;5;200my\x1B[48;5;17mz\x1B[0mw\x1B[92mv\x1B[1;2H");
    assert_eq!(w.get_cursor(), (1, 0));
    let content = w.get_content();
    let mut copy = SimpleTerminalWindow::new(0, 0, 4, 2, "b".to_string());
    copy.input(content.as_bytes());
    for row in 0..2 {
        for col in 0..4 {
            let a = w.get_cell(col, row).unwrap();
            let b = copy.get_cell(col, row).unwrap();
            assert_eq!(a.ch, b.ch);
            assert_eq!(a.fg, b.fg);
            if (col, row) != (1, 0) {
                assert_eq!(a.bg, b.bg);
            }
        }
    }
    assert_eq!(copy.get_cursor(), (3, 1));
}

#[test]
fn queue_handle_reaches_the_window() {
    let mut w = SimpleTerminalWindow::new(0, 0, 4, 1, "q".to_string());
    let q = w.queue();
    q.push(b"ok".to_vec());
    w.update_content();
    assert_eq!(w.get_cell(0, 0).unwrap().ch, 'o');
    assert_eq!(w.get_cell(1, 0).unwrap().ch, 'k');
}

#[test]
fn content_replays_non_ascii_text() {
    let mut w = SimpleTerminalWindow::new(0, 0, 3, 2, "u".to_string());
    w.input("\u{e9}\x1B[35m\u{20ac}\u{1F600}\u{80}".as_bytes());
    let mut copy = SimpleTerminalWindow::new(0, 0, 3, 2, "v".to_string());
    copy.input(w.get_content().as_bytes());
    for (col, row) in [(0usize, 0usize), (1, 0), (2, 0), (0, 1)].iter() {
        let a = w.get_cell(*col, *row).unwrap();
        let b = copy.get_cell(*col, *row).unwrap();
        assert_eq!(a.ch, b.ch);
        assert_eq!(a.fg, b.fg);
    }
    assert_eq!(copy.get_cell(1, 0).unwrap().ch, '\u{20ac}');
}
