//! Per-pane terminal state, delegated to the `vt100` emulator behind a
//! small set of trusted wrappers.  The wrappers promise nothing beyond
//! value ranges: what the emulator reports depends on the byte stream
//! it has consumed, so the functions around them state what holds of
//! every outcome.

use vstd::prelude::*;
use crate::canvas::Canvas;
use crate::cell::{Cell, CellValue};
use crate::style::Style;
use crate::vector::Vector2;

verus! {

/// The smallest emulator size kept, on either axis.
pub const MIN_TERMINAL_DIM: i32 = 5;

/// The largest emulator size handed to vt100, on either axis.  The
/// emulator does its cursor arithmetic in 16-bit integers, with steps
/// such as the 8-column tab advance; keeping both axes at half the
/// 16-bit range leaves that arithmetic far from its ceiling.
pub const MAX_TERMINAL_DIM: i32 = 32767;

/// Which mouse events the application in the pane asked to receive.
#[derive(Clone, Copy, Debug, PartialEq, Eq, Structural)]
pub enum MouseProtocolMode {
    Off,
    Press,
    PressRelease,
    ButtonMotion,
    AnyMotion,
}

/// How mouse events are encoded on the pane's input stream.
#[derive(Clone, Copy, Debug, PartialEq, Eq, Structural)]
pub enum MouseProtocolEncoding {
    Default,
    Utf8,
    Sgr,
}

#[verifier::external_type_specification]
#[verifier::external_body]
pub struct ExParser(vt100::Parser);

/// Relies on `vt100::Parser::new`: a fresh emulator of the given size
/// with no scrollback.  vt100's grid does unchecked 16-bit arithmetic
/// on the size: it takes at least one row, at least two columns (a
/// wide character wraps by computing `cols - 2`), and tab stops move
/// the cursor up to eight columns past the width, so both axes stay
/// within half the 16-bit range.
#[verifier::external_body]
fn parser_new(rows: u16, cols: u16) -> vt100::Parser
    requires
        1 <= rows <= 32767,
        2 <= cols <= 32767,
{
    vt100::Parser::new(rows, cols, 0)
}

/// Relies on `vt100::Parser::process`: feeds output bytes of the child
/// process into the emulator.
#[verifier::external_body]
fn parser_process(parser: &mut vt100::Parser, bytes: &[u8]) {
    parser.process(bytes);
}

/// Relies on `vt100::Parser::set_size`: resizes the emulated screen.
/// The size bounds are those of `parser_new`, for the same grid
/// arithmetic.
#[verifier::external_body]
fn parser_set_size(parser: &mut vt100::Parser, rows: u16, cols: u16)
    requires
        1 <= rows <= 32767,
        2 <= cols <= 32767,
{
    parser.set_size(rows, cols);
}

/// Relies on `vt100::Screen::size`: the emulated screen's (rows, cols).
#[verifier::external_body]
fn parser_screen_size(parser: &vt100::Parser) -> (u16, u16) {
    parser.screen().size()
}

/// Relies on `vt100::Screen::title`: the window title the application
/// in the pane set last.
#[verifier::external_body]
fn parser_title(parser: &vt100::Parser) -> String {
    parser.screen().title().to_string()
}

/// Relies on `vt100::Screen::cursor_position`: the cursor's (row, col).
#[verifier::external_body]
fn parser_cursor_position(parser: &vt100::Parser) -> (u16, u16) {
    parser.screen().cursor_position()
}

/// Relies on `vt100::Screen::hide_cursor`: whether the application
/// asked for an invisible cursor.
#[verifier::external_body]
fn parser_hide_cursor(parser: &vt100::Parser) -> bool {
    parser.screen().hide_cursor()
}

/// Relies on `vt100::Screen::application_keypad`: whether application
/// keypad mode is on.
#[verifier::external_body]
fn parser_application_keypad(parser: &vt100::Parser) -> bool {
    parser.screen().application_keypad()
}

/// Relies on `vt100::Screen::mouse_protocol_mode`, mapping each variant
/// to this crate's own mode type.
#[verifier::external_body]
fn parser_mouse_protocol_mode(parser: &vt100::Parser) -> MouseProtocolMode {
    match parser.screen().mouse_protocol_mode() {
        vt100::MouseProtocolMode::None => MouseProtocolMode::Off,
        vt100::MouseProtocolMode::Press => MouseProtocolMode::Press,
        vt100::MouseProtocolMode::PressRelease => MouseProtocolMode::PressRelease,
        vt100::MouseProtocolMode::ButtonMotion => MouseProtocolMode::ButtonMotion,
        vt100::MouseProtocolMode::AnyMotion => MouseProtocolMode::AnyMotion,
    }
}

/// Relies on `vt100::Screen::mouse_protocol_encoding`, mapping each
/// variant to this crate's own encoding type.
#[verifier::external_body]
fn parser_mouse_protocol_encoding(parser: &vt100::Parser) -> MouseProtocolEncoding {
    match parser.screen().mouse_protocol_encoding() {
        vt100::MouseProtocolEncoding::Default => MouseProtocolEncoding::Default,
        vt100::MouseProtocolEncoding::Utf8 => MouseProtocolEncoding::Utf8,
        vt100::MouseProtocolEncoding::Sgr => MouseProtocolEncoding::Sgr,
    }
}

/// Relies on `vt100::Screen::cell`, `vt100::Cell::contents`,
/// `vt100::Cell::fgcolor` and `vt100::Cell::bgcolor`: one emulated cell
/// converted to this crate's cell type, contents taken as they are;
/// positions the emulator does not cover yield a blank cell.
#[verifier::external_body]
fn parser_cell(parser: &vt100::Parser, row: u16, col: u16) -> Cell {
    match parser.screen().cell(row, col) {
        Option::None => Cell::default(),
        Option::Some(cell) => {
            let cc = |c| match c {
                vt100::Color::Default => crate::color::Color::default(),
                vt100::Color::Idx(v) => crate::color::Color::new_one_byte(v),
                vt100::Color::Rgb(r, g, b) => crate::color::Color::new_rgb(r, g, b),
            };
            let style = Style::default().with_background_color(cc(cell.bgcolor()))
                .with_foreground_color(cc(cell.fgcolor()));
            Cell::new_styled(CellValue::from_string(cell.contents()), style)
        },
    }
}

/// A pane's terminal state: the emulator plus the size the multiplexer
/// believes the pane has.  Sizes are clamped into
/// `[MIN_TERMINAL_DIM, MAX_TERMINAL_DIM]` on each axis.
pub struct TerminalInfo {
    size: Vector2,
    parser: vt100::Parser,
}

/// The stored size for a requested size: each axis clamped into the
/// range the emulator accepts.
pub open spec fn clamp_terminal_size(size: Vector2) -> Vector2 {
    Vector2 {
        x: if size.x < MIN_TERMINAL_DIM {
            MIN_TERMINAL_DIM
        } else if size.x > MAX_TERMINAL_DIM {
            MAX_TERMINAL_DIM
        } else {
            size.x
        },
        y: if size.y < MIN_TERMINAL_DIM {
            MIN_TERMINAL_DIM
        } else if size.y > MAX_TERMINAL_DIM {
            MAX_TERMINAL_DIM
        } else {
            size.y
        },
    }
}

impl TerminalInfo {
    pub closed spec fn spec_size(self) -> Vector2 {
        self.size
    }

    pub open spec fn size_wf(self) -> bool {
        MIN_TERMINAL_DIM <= self.spec_size().x <= MAX_TERMINAL_DIM && MIN_TERMINAL_DIM
            <= self.spec_size().y <= MAX_TERMINAL_DIM
    }

    pub fn new(size: Vector2) -> (r: Self)
        ensures
            r.spec_size() == clamp_terminal_size(size),
            r.size_wf(),
    {
        let size = size.max(Vector2 { x: MIN_TERMINAL_DIM, y: MIN_TERMINAL_DIM }).min(
            Vector2 { x: MAX_TERMINAL_DIM, y: MAX_TERMINAL_DIM },
        );
        TerminalInfo { parser: parser_new(size.y as u16, size.x as u16), size }
    }

    /// Feeds output of the pane's process into the emulator.
    pub fn process(&mut self, bytes: &[u8])
        ensures
            final(self).spec_size() == old(self).spec_size(),
    {
        parser_process(&mut self.parser, bytes);
    }

    /// Resizes the emulator; a size it already has is not repeated.
    pub fn set_size(&mut self, size: Vector2)
        ensures
            final(self).spec_size() == clamp_terminal_size(size),
            final(self).size_wf(),
    {
        let size = size.max(Vector2 { x: MIN_TERMINAL_DIM, y: MIN_TERMINAL_DIM }).min(
            Vector2 { x: MAX_TERMINAL_DIM, y: MAX_TERMINAL_DIM },
        );
        if self.size.x == size.x && self.size.y == size.y {
            return ;
        }
        parser_set_size(&mut self.parser, size.y as u16, size.x as u16);
        self.size = size;
    }

    /// The size the multiplexer last asked for.
    pub fn size(&self) -> (r: Vector2)
        ensures
            r == self.spec_size(),
    {
        self.size
    }

    /// The pane's window title, as its application set it.
    pub fn title(&self) -> String {
        parser_title(&self.parser)
    }

    /// The cursor position as `(x, y)`; both axes fit in 16 bits.
    pub fn cursor_position(&self) -> (r: Vector2)
        ensures
            0 <= r.x <= 65535,
            0 <= r.y <= 65535,
    {
        let (y, x) = parser_cursor_position(&self.parser);
        Vector2 { x: x as i32, y: y as i32 }
    }

    pub fn is_cursor_visible(&self) -> bool {
        !parser_hide_cursor(&self.parser)
    }

    pub fn application_keypad_mode(&self) -> bool {
        parser_application_keypad(&self.parser)
    }

    pub fn mouse_protocol_mode(&self) -> MouseProtocolMode {
        parser_mouse_protocol_mode(&self.parser)
    }

    pub fn mouse_protocol_encoding(&self) -> MouseProtocolEncoding {
        parser_mouse_protocol_encoding(&self.parser)
    }

    /// The emulated screen, taken as plain values: one row of cells per
    /// screen row, every row of the same width, empty cell contents
    /// already replaced by a space.  What the cells hold is whatever
    /// the byte stream produced.
    pub fn screen_snapshot(&self) -> (r: Vec<Vec<Cell>>)
        ensures
            screen_rows_wf(r@),
    {
        let (rows, cols) = parser_screen_size(&self.parser);
        let mut out: Vec<Vec<Cell>> = Vec::new();
        let mut y: u16 = 0;
        while y < rows
            invariant
                0 <= y <= rows,
                out@.len() == y as int,
                forall|j: int|
                    0 <= j < y as int ==> (#[trigger] out@[j])@.len() == cols as int,
                forall|j: int, i: int|
                    0 <= j < y as int && 0 <= i < cols as int ==> (#[trigger] out@[j]@[i])@.text.len() >= 1,
            decreases rows - y,
        {
            let mut row: Vec<Cell> = Vec::new();
            let mut x: u16 = 0;
            while x < cols
                invariant
                    0 <= x <= cols,
                    row@.len() == x as int,
                    forall|i: int| 0 <= i < x as int ==> (#[trigger] row@[i])@.text.len() >= 1,
                decreases cols - x,
            {
                let cell = parser_cell(&self.parser, y, x);
                let text = cell.to_string();
                let cell = if text.as_str().unicode_len() == 0 {
                    Cell::new_styled(CellValue::from_char(' '), cell.style)
                } else {
                    cell
                };
                row.push(cell);
                x = x + 1;
            }
            out.push(row);
            y = y + 1;
        }
        out
    }

    /// Copies the emulated screen into `canvas`: a snapshot is taken and
    /// written cell for cell, as `draw_screen`'s contract states; the
    /// canvas takes the screen's size, which fits 16 bits each way.
    pub fn draw(&self, canvas: &mut Canvas)
        requires
            old(canvas).wf(),
        ensures
            final(canvas).wf(),
            0 <= final(canvas).spec_size().x <= 65535,
            0 <= final(canvas).spec_size().y <= 65535,
    {
        let cells = self.screen_snapshot();
        draw_screen(&cells, canvas);
    }

    /// The emulated screen as a fresh canvas.
    pub fn canvas(&self) -> (r: Canvas)
        ensures
            r.wf(),
            0 <= r.spec_size().x <= 65535,
            0 <= r.spec_size().y <= 65535,
    {
        let mut canvas = Canvas::new(Vector2 { x: 0, y: 0 });
        self.draw(&mut canvas);
        canvas
    }
}

/// A well-shaped screen snapshot: at most a 16-bit number of rows, all
/// rows of one width of at most 16 bits, no cell with empty contents.
pub open spec fn screen_rows_wf(rows: Seq<Vec<Cell>>) -> bool {
    &&& rows.len() <= 65535
    &&& forall|j: int|
        0 <= j < rows.len() ==> (#[trigger] rows[j])@.len() == snapshot_width(rows)
    &&& snapshot_width(rows) <= 65535
    &&& forall|j: int, i: int|
        0 <= j < rows.len() && 0 <= i < snapshot_width(rows) ==> (#[trigger] rows[j]@[i])@.text.len()
            >= 1
}

/// The width of a snapshot: its first row's, or zero when it has none.
pub open spec fn snapshot_width(rows: Seq<Vec<Cell>>) -> int {
    if rows.len() == 0 {
        0
    } else {
        rows[0]@.len() as int
    }
}

/// Writes a screen snapshot into `canvas`: the canvas takes the
/// snapshot's size and every cell equals the snapshot's cell at the
/// same position, row by row — the cell-for-cell copy behind
/// `TerminalInfo::draw`.
#[verifier::loop_isolation(false)]
pub fn draw_screen(cells: &Vec<Vec<Cell>>, canvas: &mut Canvas)
    requires
        old(canvas).wf(),
        screen_rows_wf(cells@),
    ensures
        final(canvas).wf(),
        final(canvas).spec_size().x == snapshot_width(cells@),
        final(canvas).spec_size().y == cells@.len(),
        forall|x: int, y: int|
            final(canvas).in_bounds(x, y) ==> #[trigger] final(canvas).cell_view(x, y) == cells@[y]@[x]@,
{
    let h = cells.len();
    let w: usize = if h > 0 {
        cells[0].len()
    } else {
        0
    };
    canvas.set_size(Vector2 { x: w as i32, y: h as i32 });
    let mut y: usize = 0;
    while y < h
        invariant
            0 <= y <= h,
            canvas.wf(),
            canvas.spec_size().x == w,
            canvas.spec_size().y == h,
            forall|x2: int, y2: int|
                canvas.in_bounds(x2, y2) && y2 < y as int ==> #[trigger] canvas.cell_view(x2, y2)
                    == cells@[y2]@[x2]@,
        decreases h - y,
    {
        let mut x: usize = 0;
        while x < w
            invariant
                0 <= x <= w,
                0 <= y < h,
                canvas.wf(),
                canvas.spec_size().x == w,
                canvas.spec_size().y == h,
                forall|x2: int, y2: int|
                    canvas.in_bounds(x2, y2) && (y2 < y as int || (y2 == y as int && x2
                        < x as int)) ==> #[trigger] canvas.cell_view(x2, y2) == cells@[y2]@[x2]@,
            decreases w - x,
        {
            let cell = cells[y][x].clone();
            canvas.set_cell(Vector2 { x: x as i32, y: y as i32 }, cell);
            x = x + 1;
        }
        y = y + 1;
    }
}

} // verus!
