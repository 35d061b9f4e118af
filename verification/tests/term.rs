use citymux::canvas::Canvas;
use citymux::cell::Cell;
use citymux::color::Color;
use citymux::style::Style;
use citymux::term::{draw_screen, MouseProtocolEncoding, MouseProtocolMode, TerminalInfo};
use citymux::vector::Vector2;

#[test]
fn terminal_sizes_are_clamped_to_the_minimum() {
    let term = TerminalInfo::new(Vector2::new(2, 80));
    assert_eq!(term.size(), Vector2::new(5, 80));
    let mut term = TerminalInfo::new(Vector2::new(20, 10));
    term.set_size(Vector2::new(30, 1));
    assert_eq!(term.size(), Vector2::new(30, 5));
}

#[test]
fn processed_text_appears_on_the_screen() {
    let mut term = TerminalInfo::new(Vector2::new(10, 5));
    term.process(b"hi");
    let canvas = term.canvas();
    assert_eq!(canvas.size(), Vector2::new(10, 5));
    assert_eq!(canvas.get_cell(Vector2::new(0, 0)), Cell::new('h'));
    assert_eq!(canvas.get_cell(Vector2::new(1, 0)), Cell::new('i'));
    assert_eq!(canvas.get_cell(Vector2::new(2, 0)), Cell::new(' '));
    assert_eq!(term.cursor_position(), Vector2::new(2, 0));
}

#[test]
fn titles_and_cursor_visibility_follow_the_stream() {
    let mut term = TerminalInfo::new(Vector2::new(10, 5));
    assert_eq!(term.title(), "");
    term.process(b"\x1b]2;hello\x07");
    assert_eq!(term.title(), "hello");
    assert!(term.is_cursor_visible());
    term.process(b"\x1b[?25l");
    assert!(!term.is_cursor_visible());
    term.process(b"\x1b[?25h");
    assert!(term.is_cursor_visible());
}

#[test]
fn mouse_protocol_follows_the_stream() {
    let mut term = TerminalInfo::new(Vector2::new(10, 5));
    assert_eq!(term.mouse_protocol_mode(), MouseProtocolMode::Off);
    assert_eq!(term.mouse_protocol_encoding(), MouseProtocolEncoding::Default);
    term.process(b"\x1b[?1003h\x1b[?1006h");
    assert_eq!(term.mouse_protocol_mode(), MouseProtocolMode::AnyMotion);
    assert_eq!(term.mouse_protocol_encoding(), MouseProtocolEncoding::Sgr);
}

#[test]
fn application_keypad_mode_follows_the_stream() {
    let mut term = TerminalInfo::new(Vector2::new(10, 5));
    assert!(!term.application_keypad_mode());
    term.process(b"\x1b=");
    assert!(term.application_keypad_mode());
    term.process(b"\x1b>");
    assert!(!term.application_keypad_mode());
}

#[test]
fn colored_cells_carry_their_style() {
    let mut term = TerminalInfo::new(Vector2::new(10, 5));
    term.process(b"\x1b[31mr");
    let canvas = term.canvas();
    let cell = canvas.get_cell(Vector2::new(0, 0));
    assert_eq!(cell.to_string(), "r");
    assert_eq!(cell.style, Style::default().with_foreground_color(Color::new_one_byte(1)));
}

#[test]
fn snapshots_copy_cell_for_cell() {
    let cells = vec![
        vec![Cell::new('a'), Cell::new('b')],
        vec![Cell::new('c'), Cell::new('d')],
    ];
    let mut canvas = Canvas::new_filled(Vector2::new(5, 5), Cell::new('#'));
    draw_screen(&cells, &mut canvas);
    assert_eq!(canvas.size(), Vector2::new(2, 2));
    assert_eq!(canvas.get_cell(Vector2::new(0, 0)), Cell::new('a'));
    assert_eq!(canvas.get_cell(Vector2::new(1, 0)), Cell::new('b'));
    assert_eq!(canvas.get_cell(Vector2::new(0, 1)), Cell::new('c'));
    assert_eq!(canvas.get_cell(Vector2::new(1, 1)), Cell::new('d'));
}
