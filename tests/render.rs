use termui::render::redraw;
use termui::screen::Screen;
use termui::window::SimpleTerminalWindow;

const BLACK: &str = "\x1B[38;5;0m\u{2588}\x1B[0m";
const WHITE: &str = "\x1B[38;5;15m\u{2588}\x1B[0m";

fn with_info(body: String) -> String {
    let n = body.len();
    format!("{}\x1B[1;3HStdout buffer size : {}", body, n)
}

#[test]
fn empty_screen_is_black_background() {
    let s = Screen::new();
    let frame = redraw(2, 2, &s);
    let expected = format!(
        "\x1B[1;1H{b}\x1B[2;1H{b}\x1B[1;2H{b}\x1B[2;2H{b}",
        b = BLACK
    );
    let expected = with_info(expected);
    assert_eq!(String::from_utf8(frame).unwrap(), expected);
}

#[test]
fn window_frame_has_border_title_content_and_handles() {
    let mut s = Screen::new();
    let mut w = SimpleTerminalWindow::new(1, 1, 1, 1, "T".to_string());
    w.input(b"z");
    s.add_container(w);
    let frame = String::from_utf8(redraw(4, 4, &s)).unwrap();
    let mut expected = String::new();
    for x in 1..=4 {
        for y in 1..=4 {
            expected.push_str(&format!("\x1B[{};{}H{}", y, x, BLACK));
        }
    }
    for x in 0..3 {
        for y in 0..3 {
            let block = if x == 1 && y == 1 { BLACK } else { WHITE };
            expected.push_str(&format!("\x1B[{};{}H{}", y + 1, x + 1, block));
        }
    }
    expected.push_str("\x1B[1;2HT");
    expected.push_str("\x1B[2;3H\u{2194}");
    expected.push_str("\x1B[3;2H\u{2195}");
    assert_eq!(frame, with_info(expected));
}

#[test]
fn window_content_is_clipped_to_host() {
    let mut s = Screen::new();
    let mut w = SimpleTerminalWindow::new(1, 1, 5, 3, "".to_string());
    w.input(b"abcde\r\nfghij");
    s.add_container(w);
    let frame = String::from_utf8(redraw(3, 3, &s)).unwrap();
    // Content clipped to 2 columns and 1 line; the cursor cell carries no
    // escape on the first line.
    assert!(frame.contains("\x1B[2;2Hab"));
    assert!(!frame.contains("fg"));
    assert!(!frame.contains("\u{2194}"));
    assert!(!frame.contains("\u{2195}"));
}

#[test]
fn lines_are_cut_to_visible_width() {
    let mut s = Screen::new();
    let mut w = SimpleTerminalWindow::new(1, 1, 6, 2, "".to_string());
    w.input(b"ab\x1B[32mcdef\r\n");
    s.add_container(w);
    let frame = String::from_utf8(redraw(4, 4, &s)).unwrap();
    // Three columns are left on the host: three visible characters, the
    // colour change kept whole.
    assert!(frame.contains("\x1B[2;2Hab\x1B[32mc\x1B[4;5H\u{2195}"));
}

#[test]
fn handles_follow_the_window_edges_only() {
    let mut s = Screen::new();
    s.add_container(SimpleTerminalWindow::new(0, 0, 2, 10, "".to_string()));
    let frame = String::from_utf8(redraw(5, 3, &s)).unwrap();
    // x + width < W: the right handle is drawn at (2, 5), below the host.
    assert!(frame.contains("\x1B[6;3H\u{2194}"));
    assert!(!frame.contains("\u{2195}"));
}
