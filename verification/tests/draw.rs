use citymux::canvas::Canvas;
use citymux::cell::Cell;
use citymux::draw::{compose_frame, render_diff, render_frame, FrameBuffers, PaneSnapshot};
use citymux::span::{Node, NodeData, Span, SpanChild, SpanDirection};
use citymux::style::Style;
use citymux::color::Color;
use citymux::vector::Vector2;

#[test]
fn diff_of_equal_frames_is_empty() {
    let mut last = Canvas::new(Vector2::new(8, 8));
    let mut new = Canvas::new(Vector2::new(8, 8));
    last.set_cell(Vector2::new(1, 1), Cell::new('A'));
    new.set_cell(Vector2::new(1, 1), Cell::new('A'));
    assert_eq!(render_diff(&last, &new), Vec::<u8>::new());
}

#[test]
fn diff_renders_rows_with_erase_runs() {
    // One 'A' at the origin of an 8 by 8 frame, against an all-blank
    // previous frame: row 0 is a cursor move, the 'A', and one
    // erase-7/forward-7 pair; the other rows are a move and an
    // erase-8/forward-8 pair; a style reset closes the stream.
    let last = Canvas::new(Vector2::new(8, 8));
    let mut new = Canvas::new(Vector2::new(8, 8));
    new.set_cell(Vector2::new(0, 0), Cell::new('A'));
    let bytes = render_diff(&last, &new);
    let mut expected: Vec<u8> = Vec::new();
    expected.extend_from_slice(b"\x1b[1;1HA\x1b[7X\x1b[7C");
    for y in 1..8 {
        expected.extend_from_slice(format!("\x1b[{};1H\x1b[8X\x1b[8C", y + 1).as_bytes());
    }
    expected.extend_from_slice(b"\x1b[0m");
    assert_eq!(bytes, expected);
}

#[test]
fn diff_coalesces_style_changes() {
    let last = Canvas::new(Vector2::new(3, 1));
    let mut new = Canvas::new(Vector2::new(3, 1));
    let red = Style::default().with_background_color(Color::new_one_byte(1));
    new.set_cell(Vector2::new(0, 0), Cell::new_styled(citymux::cell::CellValue::from_char('a'), red));
    new.set_cell(Vector2::new(1, 0), Cell::new_styled(citymux::cell::CellValue::from_char('b'), red));
    new.set_cell(Vector2::new(2, 0), Cell::new('c'));
    let bytes = render_diff(&last, &new);
    let mut expected: Vec<u8> = Vec::new();
    // One style change covers both red cells; the default-styled 'c'
    // resets the style once more.
    expected.extend_from_slice(b"\x1b[1;1H\x1b[0m\x1b[41m\x1b[39mab\x1b[0m\x1b[49m\x1b[39mc\x1b[0m");
    assert_eq!(bytes, expected);
}

fn pane(id: usize, title: &str, content: Canvas) -> PaneSnapshot {
    PaneSnapshot {
        span_id: id,
        title: title.to_string(),
        content,
        cursor: Vector2::new(0, 0),
        cursor_visible: false,
    }
}

#[test]
fn compose_draws_border_title_and_contents() {
    let mut content = Canvas::new(Vector2::new(8, 4));
    content.set_cell(Vector2::new(0, 0), Cell::new('Z'));
    let panes = vec![pane(1, "sh", content)];
    let root = Node::new(1, NodeData::Void);
    let mut canvas = Canvas::new(Vector2::new(10, 6));
    compose_frame(&root, 1, &panes, &mut canvas);
    assert_eq!(canvas.get_cell(Vector2::new(0, 0)).to_string(), "\u{250C}");
    assert_eq!(canvas.get_cell(Vector2::new(9, 0)).to_string(), "\u{2510}");
    assert_eq!(canvas.get_cell(Vector2::new(0, 5)).to_string(), "\u{2514}");
    assert_eq!(canvas.get_cell(Vector2::new(9, 5)).to_string(), "\u{2518}");
    assert_eq!(canvas.get_cell(Vector2::new(5, 0)).to_string(), "\u{2500}");
    assert_eq!(canvas.get_cell(Vector2::new(0, 3)).to_string(), "\u{2502}");
    // The bracketed title runs along the top border.
    assert_eq!(canvas.get_cell(Vector2::new(1, 0)).to_string(), "[");
    assert_eq!(canvas.get_cell(Vector2::new(2, 0)).to_string(), "s");
    assert_eq!(canvas.get_cell(Vector2::new(3, 0)).to_string(), "h");
    assert_eq!(canvas.get_cell(Vector2::new(4, 0)).to_string(), "]");
    // The pane's screen starts one cell inside the border.
    assert_eq!(canvas.get_cell(Vector2::new(1, 1)), Cell::new('Z'));
    // The active border carries the highlight color.
    let active_style = Style::default().with_foreground_color(Color::new_one_byte(14));
    assert_eq!(canvas.get_cell(Vector2::new(0, 3)).style, active_style);
}

#[test]
fn compose_marks_inactive_borders_grey() {
    let panes: Vec<PaneSnapshot> = Vec::new();
    let root = Node::new(1, NodeData::Void);
    let mut canvas = Canvas::new(Vector2::new(6, 4));
    compose_frame(&root, 7, &panes, &mut canvas);
    let inactive_style = Style::default().with_foreground_color(Color::new_one_byte(8));
    assert_eq!(canvas.get_cell(Vector2::new(0, 1)).style, inactive_style);
}

#[test]
fn compose_splits_panes_side_by_side() {
    let left = pane(1, "a", Canvas::new(Vector2::new(2, 2)));
    let right = pane(2, "b", Canvas::new(Vector2::new(2, 2)));
    let root = Node::new(
        3,
        NodeData::Span(Span {
            direction: SpanDirection::Horizontal,
            children: vec![
                SpanChild::new(Node::new(1, NodeData::Void)),
                SpanChild::new(Node::new(2, NodeData::Void)),
            ],
        }),
    );
    let mut canvas = Canvas::new(Vector2::new(12, 4));
    compose_frame(&root, 1, &vec![left, right], &mut canvas);
    // Each pane draws its own corners: left pane spans columns 0..=5,
    // right pane columns 6..=11.
    assert_eq!(canvas.get_cell(Vector2::new(0, 0)).to_string(), "\u{250C}");
    assert_eq!(canvas.get_cell(Vector2::new(5, 0)).to_string(), "\u{2510}");
    assert_eq!(canvas.get_cell(Vector2::new(6, 0)).to_string(), "\u{250C}");
    assert_eq!(canvas.get_cell(Vector2::new(11, 0)).to_string(), "\u{2510}");
}

#[test]
fn render_frame_skips_an_unchanged_frame_and_places_the_cursor() {
    let root = Node::new(1, NodeData::Void);
    let mk = || {
        vec![PaneSnapshot {
            span_id: 1,
            title: "sh".to_string(),
            content: {
                let mut c = Canvas::new(Vector2::new(8, 4));
                c.set_cell(Vector2::new(0, 0), Cell::new('Z'));
                c
            },
            cursor: Vector2::new(2, 1),
            cursor_visible: true,
        }]
    };
    let mut buffers = FrameBuffers::new();
    let size = Vector2::new(10, 6);
    let first = render_frame(&mut buffers, Some(&root), 1, size, &mk());
    assert!(!first.is_empty());
    let second = render_frame(&mut buffers, Some(&root), 1, size, &mk());
    // The second frame is identical: only the preamble and the cursor
    // placement remain, no cell bytes.
    let mut expected: Vec<u8> = Vec::new();
    expected.extend_from_slice(b"\x1b[0m\x1b[?25l");
    // Pane origin (0, 0) plus cursor (2, 1) plus the border inset.
    expected.extend_from_slice(b"\x1b[3;4H\x1b[?25h");
    assert_eq!(second, expected);
}
