use citymux::cell::{Cell, CellValue};
use citymux::encoding::{CsiSequence, OscSequence, TerminalCommand};
use citymux::style::Style;
use citymux::text::DrawableStr;
use citymux::canvas::Canvas;
use citymux::rect::Rect;
use citymux::vector::Vector2;

#[test]
fn cells_print_their_content() {
    assert_eq!(Cell::new('A').to_string(), "A");
    assert_eq!(Cell::default().to_string(), " ");
    assert_eq!(CellValue::from_char('x').to_vec(), b"x".to_vec());
    assert_eq!(CellValue::from_string("ab".to_string()).to_vec(), b"ab".to_vec());
}

#[test]
fn emptiness_ignores_the_style() {
    let red = Style::default().with_background_color(citymux::color::Color::new_one_byte(1));
    assert!(Cell::empty_styled(red).is_empty());
    assert!(!Cell::new('A').is_empty());
    assert!(Cell::new(' ').is_empty());
}

#[test]
fn cell_equality_is_structural() {
    assert_eq!(Cell::new('A'), Cell::new('A'));
    assert_ne!(Cell::new('A'), Cell::new('B'));
    let red = Style::default().with_background_color(citymux::color::Color::new_one_byte(1));
    assert_ne!(Cell::new(' '), Cell::empty_styled(red));
}

#[test]
fn sequences_hand_back_their_bytes() {
    let csi = CsiSequence::new(b"2X".to_vec());
    assert_eq!(csi.content(), b"2X");
    assert_eq!(csi.content_as_string(), "2X");
    let osc = OscSequence::new(b"0;title".to_vec());
    assert_eq!(osc.content(), b"0;title");
    assert_eq!(osc.content_as_string(), "0;title");
    assert!(matches!(TerminalCommand::string("x".to_string()), TerminalCommand::Text(_)));
    assert!(matches!(TerminalCommand::csi(CsiSequence::new(Vec::new())), TerminalCommand::Csi(_)));
    assert!(matches!(TerminalCommand::osc(OscSequence::new(Vec::new())), TerminalCommand::Osc(_)));
}

#[test]
fn drawable_strings_paint_one_row() {
    let mut canvas = Canvas::new(Vector2::new(10, 3));
    let view = canvas.to_sub_view(Rect::new(Vector2::new(2, 1), Vector2::new(3, 1)));
    let text = DrawableStr::new("hello", Style::default());
    assert_eq!(text.size(), Vector2::new(5, 1));
    text.draw(&view, &mut canvas);
    assert_eq!(canvas.get_cell(Vector2::new(2, 1)), Cell::new('h'));
    assert_eq!(canvas.get_cell(Vector2::new(3, 1)), Cell::new('e'));
    assert_eq!(canvas.get_cell(Vector2::new(4, 1)), Cell::new('l'));
    // The view is three cells wide: the rest of the text is clipped.
    assert_eq!(canvas.get_cell(Vector2::new(5, 1)), Cell::new(' '));
}
