//! Pure input logic: translating key events into the byte sequences a
//! pane's process expects, recognizing the multiplexer's own shortcuts,
//! directional navigation, and mouse reporting.

use vstd::prelude::*;
use vstd::utf8::encode_utf8;
use crate::cell::CellValue;
use crate::digits::{dec_spec, dec_u64};
use crate::rect::Rect;
use crate::term::{MouseProtocolEncoding, MouseProtocolMode};
use crate::vector::Vector2;
use crate::view::view_rect_wf;

verus! {

/// A key, modelled after the usual terminal event sources; keys whose
/// payloads the multiplexer ignores carry none here.
#[derive(Clone, Copy, Debug, PartialEq, Eq, Structural)]
pub enum KeyCode {
    Backspace,
    Enter,
    Left,
    Right,
    Up,
    Down,
    Home,
    End,
    PageUp,
    PageDown,
    Tab,
    BackTab,
    Delete,
    Insert,
    F(u8),
    Char(char),
    Null,
    Esc,
    CapsLock,
    ScrollLock,
    NumLock,
    PrintScreen,
    Pause,
    Menu,
    KeypadBegin,
    Media,
    Modifier,
}

#[derive(Clone, Copy, Debug, PartialEq, Eq, Structural)]
pub struct KeyModifiers {
    pub control: bool,
    pub alt: bool,
    pub shift: bool,
}

#[derive(Clone, Copy, Debug, PartialEq, Eq, Structural)]
pub enum KeyEventKind {
    Press,
    Repeat,
    Release,
}

#[derive(Clone, Copy, Debug, PartialEq, Eq, Structural)]
pub struct KeyEvent {
    pub code: KeyCode,
    pub modifiers: KeyModifiers,
    pub kind: KeyEventKind,
}

/// Conversion state that affects how keys are encoded.
#[derive(Clone, Copy, Debug, PartialEq, Eq, Structural)]
pub struct KeyEventConversionOptions {
    pub is_application_keypad_mode_enabled: bool,
}

impl KeyEventConversionOptions {
    pub fn with_application_keypad_mode(self, is_enabled: bool) -> (r: Self)
        ensures
            r.is_application_keypad_mode_enabled == is_enabled,
    {
        KeyEventConversionOptions { is_application_keypad_mode_enabled: is_enabled }
    }
}

impl Default for KeyEventConversionOptions {
    fn default() -> (r: Self)
        ensures
            !r.is_application_keypad_mode_enabled,
    {
        KeyEventConversionOptions { is_application_keypad_mode_enabled: false }
    }
}

pub open spec fn is_ascii_alpha(c: char) -> bool {
    (97 <= c as int <= 122) || (65 <= c as int <= 90)
}

pub open spec fn ascii_upper(c: char) -> int {
    if 97 <= c as int <= 122 {
        c as int - 32
    } else {
        c as int
    }
}

/// The bytes a key event sends to the active pane's process: ordinary
/// escape sequences, `ESC O`-prefixed forms in application keypad mode,
/// control codes for control-modified letters and an `ESC` prefix for
/// alt-modified ones.  Release events send nothing.
pub open spec fn key_bytes_spec(event: KeyEvent, options: KeyEventConversionOptions) -> Seq<u8> {
    let app = options.is_application_keypad_mode_enabled;
    if event.kind is Release {
        Seq::<u8>::empty()
    } else {
        match event.code {
            KeyCode::Backspace => seq![0x7fu8],
            KeyCode::Enter => if app {
                seq![27u8, 79u8, 77u8]
            } else {
                seq![13u8]
            },
            KeyCode::Left => if app {
                seq![27u8, 79u8, 68u8]
            } else {
                seq![27u8, 91u8, 68u8]
            },
            KeyCode::Right => if app {
                seq![27u8, 79u8, 67u8]
            } else {
                seq![27u8, 91u8, 67u8]
            },
            KeyCode::Up => if app {
                seq![27u8, 79u8, 65u8]
            } else {
                seq![27u8, 91u8, 65u8]
            },
            KeyCode::Down => if app {
                seq![27u8, 79u8, 66u8]
            } else {
                seq![27u8, 91u8, 66u8]
            },
            KeyCode::Home => if app {
                seq![27u8, 79u8, 72u8]
            } else {
                seq![27u8, 91u8, 72u8]
            },
            KeyCode::End => if app {
                seq![27u8, 79u8, 70u8]
            } else {
                seq![27u8, 91u8, 70u8]
            },
            KeyCode::Delete => seq![27u8, 91u8, 51u8, 126u8],
            KeyCode::PageUp => if app {
                seq![27u8, 79u8, 53u8]
            } else {
                seq![27u8, 91u8, 53u8, 126u8]
            },
            KeyCode::PageDown => if app {
                seq![27u8, 79u8, 54u8]
            } else {
                seq![27u8, 91u8, 54u8, 126u8]
            },
            KeyCode::Tab => if app {
                seq![27u8, 79u8, 73u8]
            } else {
                seq![9u8]
            },
            KeyCode::Insert => if app {
                seq![27u8, 79u8, 50u8]
            } else {
                seq![27u8, 91u8, 50u8, 126u8]
            },
            KeyCode::BackTab => if app {
                seq![27u8, 79u8, 90u8]
            } else {
                seq![27u8, 91u8, 90u8]
            },
            KeyCode::Char(c) => if event.modifiers.control && is_ascii_alpha(c) {
                seq![(ascii_upper(c) - 64) as u8]
            } else if event.modifiers.alt && is_ascii_alpha(c) {
                seq![27u8] + encode_utf8(seq![c])
            } else {
                encode_utf8(seq![c])
            },
            KeyCode::Null => seq![0u8],
            KeyCode::Esc => seq![27u8],
            _ => Seq::<u8>::empty(),
        }
    }
}

/// Encodes a key event, exactly as `key_bytes_spec` states.
pub fn key_event_to_bytes(event: KeyEvent, options: KeyEventConversionOptions) -> (r: Vec<u8>)
    ensures
        r@ == key_bytes_spec(event, options),
{
    let mut bytes: Vec<u8> = Vec::new();
    let app = options.is_application_keypad_mode_enabled;
    let press = match event.kind {
        KeyEventKind::Press => true,
        KeyEventKind::Repeat => true,
        KeyEventKind::Release => false,
    };
    if press {
        match event.code {
            KeyCode::Backspace => bytes.push(0x7f),
            KeyCode::Enter => if app {
                bytes.push(27);
                bytes.push(79);
                bytes.push(77);
            } else {
                bytes.push(13);
            },
            KeyCode::Left => {
                bytes.push(27);
                bytes.push(if app { 79 } else { 91 });
                bytes.push(68);
            },
            KeyCode::Right => {
                bytes.push(27);
                bytes.push(if app { 79 } else { 91 });
                bytes.push(67);
            },
            KeyCode::Up => {
                bytes.push(27);
                bytes.push(if app { 79 } else { 91 });
                bytes.push(65);
            },
            KeyCode::Down => {
                bytes.push(27);
                bytes.push(if app { 79 } else { 91 });
                bytes.push(66);
            },
            KeyCode::Home => {
                bytes.push(27);
                bytes.push(if app { 79 } else { 91 });
                bytes.push(72);
            },
            KeyCode::End => {
                bytes.push(27);
                bytes.push(if app { 79 } else { 91 });
                bytes.push(70);
            },
            KeyCode::Delete => {
                bytes.push(27);
                bytes.push(91);
                bytes.push(51);
                bytes.push(126);
            },
            KeyCode::PageUp => {
                bytes.push(27);
                bytes.push(if app { 79 } else { 91 });
                bytes.push(53);
                if !app {
                    bytes.push(126);
                }
            },
            KeyCode::PageDown => {
                bytes.push(27);
                bytes.push(if app { 79 } else { 91 });
                bytes.push(54);
                if !app {
                    bytes.push(126);
                }
            },
            KeyCode::Tab => if app {
                bytes.push(27);
                bytes.push(79);
                bytes.push(73);
            } else {
                bytes.push(9);
            },
            KeyCode::Insert => {
                bytes.push(27);
                bytes.push(if app { 79 } else { 91 });
                bytes.push(50);
                if !app {
                    bytes.push(126);
                }
            },
            KeyCode::BackTab => {
                bytes.push(27);
                bytes.push(if app { 79 } else { 91 });
                bytes.push(90);
            },
            KeyCode::Char(c) => {
                let u = c as u32;
                let alpha = (97 <= u && u <= 122) || (65 <= u && u <= 90);
                if event.modifiers.control && alpha {
                    let upper: u32 = if 97 <= u && u <= 122 {
                        u - 32
                    } else {
                        u
                    };
                    bytes.push((upper - 64) as u8);
                } else if event.modifiers.alt && alpha {
                    bytes.push(27);
                    let mut cb = CellValue::from_char(c).to_vec();
                    bytes.append(&mut cb);
                } else {
                    let mut cb = CellValue::from_char(c).to_vec();
                    bytes.append(&mut cb);
                }
            },
            KeyCode::Null => bytes.push(0),
            KeyCode::Esc => bytes.push(27),
            _ => {},
        }
    }
    proof {
        assert(bytes@ =~= key_bytes_spec(event, options));
    }
    bytes
}

/// What the multiplexer does with a key before it reaches a pane.
#[derive(Clone, Copy, Debug, PartialEq, Eq, Structural)]
pub enum ShortcutAction {
    /// Close the active pane.
    KillActive,
    /// Open a new pane.
    CreatePane,
    /// Move the active-pane focus one step in the given direction.
    Navigate(Vector2),
}

/// The multiplexer's own shortcuts: alt-q closes the active pane,
/// alt-n opens a new one, and alt plus an arrow key moves the focus;
/// everything else flows through to the pane.
pub open spec fn shortcut_spec(event: KeyEvent) -> Option<ShortcutAction> {
    if event.modifiers.alt && event.kind is Press {
        match event.code {
            KeyCode::Char(c) => if c == 'q' {
                Some(ShortcutAction::KillActive)
            } else if c == 'n' {
                Some(ShortcutAction::CreatePane)
            } else {
                None
            },
            KeyCode::Left => Some(ShortcutAction::Navigate(Vector2 { x: -1i32, y: 0i32 })),
            KeyCode::Right => Some(ShortcutAction::Navigate(Vector2 { x: 1i32, y: 0i32 })),
            KeyCode::Up => Some(ShortcutAction::Navigate(Vector2 { x: 0i32, y: -1i32 })),
            KeyCode::Down => Some(ShortcutAction::Navigate(Vector2 { x: 0i32, y: 1i32 })),
            _ => None,
        }
    } else {
        None
    }
}

/// Recognizes the multiplexer's shortcuts, as `shortcut_spec` states.
pub fn shortcut_action(event: KeyEvent) -> (r: Option<ShortcutAction>)
    ensures
        r == shortcut_spec(event),
{
    let press = match event.kind {
        KeyEventKind::Press => true,
        _ => false,
    };
    if !(event.modifiers.alt && press) {
        return None;
    }
    match event.code {
        KeyCode::Char(c) => if c == 'q' {
            Some(ShortcutAction::KillActive)
        } else if c == 'n' {
            Some(ShortcutAction::CreatePane)
        } else {
            None
        },
        KeyCode::Left => Some(ShortcutAction::Navigate(Vector2 { x: -1, y: 0 })),
        KeyCode::Right => Some(ShortcutAction::Navigate(Vector2 { x: 1, y: 0 })),
        KeyCode::Up => Some(ShortcutAction::Navigate(Vector2 { x: 0, y: -1 })),
        KeyCode::Down => Some(ShortcutAction::Navigate(Vector2 { x: 0, y: 1 })),
        _ => None,
    }
}

/// The probe position used to find the neighbouring pane in a
/// direction: one cell beyond the current rectangle's edge, at the
/// middle of the facing side.
pub open spec fn nav_probe(current: Rect, direction: Vector2) -> (int, int) {
    let sx = if direction.x > 0 {
        1int
    } else if direction.x < 0 {
        -1int
    } else {
        0int
    };
    let sy = if direction.y > 0 {
        1int
    } else if direction.y < 0 {
        -1int
    } else {
        0int
    };
    if sx == -1 && sy == 0 {
        (current.position.x - 1, current.position.y + current.size.y / 2)
    } else if sx == 1 && sy == 0 {
        (current.position.x + current.size.x + 1, current.position.y + current.size.y / 2)
    } else if sx == 0 && sy == -1 {
        (current.position.x + current.size.x / 2, current.position.y - 1)
    } else if sx == 0 && sy == 1 {
        (current.position.x + current.size.x / 2, current.position.y + current.size.y + 1)
    } else {
        (current.position.x as int, current.position.y as int)
    }
}

/// The first pane in the list whose rectangle holds the point.
pub open spec fn first_pane_at(panes: Seq<(usize, Rect)>, x: int, y: int) -> Option<usize>
    decreases panes.len(),
{
    if panes.len() == 0 {
        None
    } else if crate::layout::rect_has_point(panes[0].1, x, y) {
        Some(panes[0].0)
    } else {
        first_pane_at(panes.drop_first(), x, y)
    }
}

/// Picks the pane that directional navigation moves the focus to: the
/// first pane whose rectangle holds the probe point one cell beyond the
/// current pane's edge.
pub fn navigation_target(current: Rect, direction: Vector2, panes: &Vec<(usize, Rect)>) -> (r:
    Option<usize>)
    requires
        view_rect_wf(current),
    ensures
        r == first_pane_at(panes@, nav_probe(current, direction).0, nav_probe(current, direction).1),
{
    let sig = direction.signnum();
    let px: i32;
    let py: i32;
    if sig.x == -1 && sig.y == 0 {
        px = current.position.x - 1;
        py = current.position.y + current.size.y / 2;
    } else if sig.x == 1 && sig.y == 0 {
        px = current.position.x + current.size.x + 1;
        py = current.position.y + current.size.y / 2;
    } else if sig.x == 0 && sig.y == -1 {
        px = current.position.x + current.size.x / 2;
        py = current.position.y - 1;
    } else if sig.x == 0 && sig.y == 1 {
        px = current.position.x + current.size.x / 2;
        py = current.position.y + current.size.y + 1;
    } else {
        px = current.position.x;
        py = current.position.y;
    }
    let mut i: usize = 0;
    proof {
        assert(panes@.skip(0) =~= panes@);
    }
    while i < panes.len()
        invariant
            0 <= i <= panes@.len(),
            px == nav_probe(current, direction).0,
            py == nav_probe(current, direction).1,
            first_pane_at(panes@, px as int, py as int) == first_pane_at(
                panes@.skip(i as int),
                px as int,
                py as int,
            ),
        decreases panes@.len() - i,
    {
        proof {
            assert(panes@.skip(i as int)[0] == panes@[i as int]);
            assert(panes@.skip(i as int).drop_first() =~= panes@.skip(i as int + 1));
        }
        let (id, rect) = panes[i];
        if rect.contains(Vector2 { x: px, y: py }) {
            return Some(id);
        }
        i = i + 1;
    }
    proof {
        assert(panes@.skip(panes@.len() as int).len() == 0);
    }
    None
}

#[derive(Clone, Copy, Debug, PartialEq, Eq, Structural)]
pub enum MouseButton {
    Left,
    Middle,
    Right,
}

#[derive(Clone, Copy, Debug, PartialEq, Eq, Structural)]
pub enum MouseEventKind {
    Down(MouseButton),
    Up(MouseButton),
    Drag(MouseButton),
    Moved,
    ScrollDown,
    ScrollUp,
}

/// A mouse event at a terminal position.
#[derive(Clone, Copy, Debug, PartialEq, Eq, Structural)]
pub struct MouseEvent {
    pub kind: MouseEventKind,
    pub column: u16,
    pub row: u16,
}

pub open spec fn button_num(button: MouseButton) -> int {
    match button {
        MouseButton::Left => 0,
        MouseButton::Middle => 1,
        MouseButton::Right => 2,
    }
}

pub fn map_button_to_int(button: MouseButton) -> (r: u8)
    ensures
        r == button_num(button),
{
    match button {
        MouseButton::Left => 0,
        MouseButton::Middle => 1,
        MouseButton::Right => 2,
    }
}

/// The wire button number of an event: scroll wheels report 64 and 65,
/// plain movement reports 0.
pub open spec fn event_button_num(kind: MouseEventKind) -> int {
    match kind {
        MouseEventKind::Down(b) => button_num(b),
        MouseEventKind::Up(b) => button_num(b),
        MouseEventKind::Drag(b) => button_num(b),
        MouseEventKind::ScrollUp => 64,
        MouseEventKind::ScrollDown => 65,
        MouseEventKind::Moved => 0,
    }
}

/// Which mouse buttons are currently held down.
#[derive(Clone, Copy, Debug, PartialEq, Eq, Structural)]
pub struct MouseButtons {
    pub left: bool,
    pub middle: bool,
    pub right: bool,
}

impl Default for MouseButtons {
    fn default() -> (r: Self)
        ensures
            r == (MouseButtons { left: false, middle: false, right: false }),
    {
        MouseButtons { left: false, middle: false, right: false }
    }
}

pub open spec fn buttons_after(b: MouseButtons, kind: MouseEventKind) -> MouseButtons {
    match kind {
        MouseEventKind::Down(button) => match button {
            MouseButton::Left => MouseButtons { left: true, ..b },
            MouseButton::Middle => MouseButtons { middle: true, ..b },
            MouseButton::Right => MouseButtons { right: true, ..b },
        },
        MouseEventKind::Up(button) => match button {
            MouseButton::Left => MouseButtons { left: false, ..b },
            MouseButton::Middle => MouseButtons { middle: false, ..b },
            MouseButton::Right => MouseButtons { right: false, ..b },
        },
        _ => b,
    }
}

pub open spec fn any_pressed(b: MouseButtons) -> bool {
    b.left || b.middle || b.right
}

/// Whether the pane asked to receive this event: presses only, presses
/// and releases, motion while a button is held, or all motion.
pub open spec fn mode_wants(
    mode: MouseProtocolMode,
    press: bool,
    release: bool,
    held: bool,
) -> bool {
    match mode {
        MouseProtocolMode::Off => false,
        MouseProtocolMode::Press => press,
        MouseProtocolMode::PressRelease => press || release,
        MouseProtocolMode::ButtonMotion => held,
        MouseProtocolMode::AnyMotion => true,
    }
}

/// A unicode scalar value: what `char` can hold.
pub open spec fn valid_scalar(v: int) -> bool {
    (0 <= v < 0xD800) || (0xE000 <= v <= 0x10FFFF)
}

/// Relies on `char::from_u32`: `Some` exactly for unicode scalar
/// values, holding that value.
#[verifier::external_body]
fn char_from_u32(v: u32) -> (r: Option<char>)
    ensures
        (r is Some) == valid_scalar(v as int),
        r matches Some(c) ==> c as int == v as int,
{
    char::from_u32(v)
}

/// The character of a code point, or NUL where the value is no scalar.
fn char_or_nul(v: u32) -> (c: char)
    ensures
        c as int == if valid_scalar(v as int) {
            v as int
        } else {
            0int
        },
{
    match char_from_u32(v) {
        Some(c) => c,
        None => match char_from_u32(0) {
            Some(c) => c,
            None => {
                proof {
                    assert(false);
                }
                ' '
            },
        },
    }
}

/// The character a value is reported as in the legacy and UTF-8 mouse
/// encodings: its code point, or NUL for values no character can hold.
pub open spec fn report_char(c: char, v: int) -> bool {
    c as int == if valid_scalar(v) {
        v
    } else {
        0int
    }
}

/// `ESC [ M` followed by three characters: the legacy mouse report.
pub open spec fn legacy_report_bytes(cb: char, cx: char, cy: char) -> Seq<u8> {
    seq![27u8, 91u8, 77u8] + encode_utf8(seq![cb]) + encode_utf8(seq![cx]) + encode_utf8(seq![cy])
}

/// `ESC [ < {b} ; {x} ; {y} M|m`: the SGR mouse report.
pub open spec fn sgr_report_bytes(button: int, x: int, y: int, release: bool) -> Seq<u8> {
    seq![27u8, 91u8, 60u8] + dec_spec(button) + seq![59u8] + dec_spec(x) + seq![59u8] + dec_spec(y)
        + seq![if release {
        109u8
    } else {
        77u8
    }]
}

/// The UTF-8 variant of the SGR frame: characters in place of decimal
/// numbers.
pub open spec fn utf8_report_bytes(cb: char, cx: char, cy: char, release: bool) -> Seq<u8> {
    seq![27u8, 91u8, 60u8] + encode_utf8(seq![cb]) + seq![59u8] + encode_utf8(seq![cx]) + seq![59u8]
        + encode_utf8(seq![cy]) + seq![if release {
        109u8
    } else {
        77u8
    }]
}

/// What one pane looks like to the mouse dispatcher.
pub struct PaneMouseInfo {
    pub span_id: usize,
    pub rect: Rect,
    pub mode: MouseProtocolMode,
    pub encoding: MouseProtocolEncoding,
}

/// What the multiplexer does with a mouse event.
pub struct MouseAction {
    pub set_active: Option<usize>,
    pub write: Option<(usize, Vec<u8>)>,
}

/// The first pane in the list whose rectangle holds the point.
pub open spec fn first_pane_idx(panes: Seq<PaneMouseInfo>, x: int, y: int) -> Option<int>
    decreases panes.len(),
{
    if panes.len() == 0 {
        None
    } else if crate::layout::rect_has_point(panes[0].rect, x, y) {
        Some(0int)
    } else {
        match first_pane_idx(panes.drop_first(), x, y) {
            Some(i) => Some(i + 1),
            None => None,
        }
    }
}

/// The bytes written to a pane for a mouse event it asked to receive,
/// relative to the pane's rectangle.
pub open spec fn report_bytes_ok(
    encoding: MouseProtocolEncoding,
    button: int,
    sx: int,
    sy: int,
    release: bool,
    bytes: Seq<u8>,
) -> bool {
    match encoding {
        MouseProtocolEncoding::Default => exists|cb: char, cx: char, cy: char|
            report_char(cb, 35) && report_char(cx, sx + 33) && report_char(cy, sy + 33) && bytes
                == #[trigger] legacy_report_bytes(cb, cx, cy),
        MouseProtocolEncoding::Sgr => bytes == sgr_report_bytes(button, sx, sy, release),
        MouseProtocolEncoding::Utf8 => exists|cb: char, cx: char, cy: char|
            report_char(cb, button) && report_char(cx, sx) && report_char(cy, sy) && bytes
                == #[trigger] utf8_report_bytes(cb, cx, cy, release),
    }
}

/// Dispatches a mouse event: records button state, focuses the pane
/// under a press, and, when the pane under the pointer asked for the
/// event, yields the bytes to write to that pane's process.
#[verifier::loop_isolation(false)]
#[verifier::rlimit(100)]
pub fn mouse_event_actions(
    event: MouseEvent,
    panes: &Vec<PaneMouseInfo>,
    buttons: &mut MouseButtons,
) -> (r: MouseAction)
    requires
        forall|i: int| 0 <= i < panes@.len() ==> view_rect_wf((#[trigger] panes@[i]).rect),
    ensures
        *final(buttons) == buttons_after(*old(buttons), event.kind),
        match first_pane_idx(panes@, event.column as int, event.row as int) {
            None => r.set_active is None && r.write is None,
            Some(i) => {
                let pane = panes@[i];
                let press = event.kind is Down;
                let release = event.kind is Up;
                let sx = event.column - pane.rect.position.x;
                let sy = event.row - pane.rect.position.y;
                &&& r.set_active == if press {
                    Some(pane.span_id)
                } else {
                    None::<usize>
                }
                &&& if mode_wants(pane.mode, press, release, any_pressed(*final(buttons))) {
                    r.write matches Some(w) && w.0 == pane.span_id && report_bytes_ok(
                        pane.encoding,
                        event_button_num(event.kind),
                        sx,
                        sy,
                        release,
                        w.1@,
                    )
                } else {
                    r.write is None
                }
            },
        },
{
    let button: u8 = match event.kind {
        MouseEventKind::Down(b) => map_button_to_int(b),
        MouseEventKind::Up(b) => map_button_to_int(b),
        MouseEventKind::Drag(b) => map_button_to_int(b),
        MouseEventKind::ScrollUp => 64,
        MouseEventKind::ScrollDown => 65,
        MouseEventKind::Moved => 0,
    };
    let is_press = match event.kind {
        MouseEventKind::Down(_) => true,
        _ => false,
    };
    let is_release = match event.kind {
        MouseEventKind::Up(_) => true,
        _ => false,
    };
    match event.kind {
        MouseEventKind::Down(b) => {
            match b {
                MouseButton::Left => buttons.left = true,
                MouseButton::Middle => buttons.middle = true,
                MouseButton::Right => buttons.right = true,
            }
        },
        MouseEventKind::Up(b) => {
            match b {
                MouseButton::Left => buttons.left = false,
                MouseButton::Middle => buttons.middle = false,
                MouseButton::Right => buttons.right = false,
            }
        },
        _ => {},
    }
    let has_press = buttons.left || buttons.middle || buttons.right;
    let mut i: usize = 0;
    proof {
        assert(panes@.skip(0) =~= panes@);
    }
    while i < panes.len()
        invariant
            0 <= i <= panes@.len(),
            *buttons == buttons_after(*old(buttons), event.kind),
            has_press == any_pressed(*buttons),
            first_pane_idx(panes@, event.column as int, event.row as int) == match first_pane_idx(
                panes@.skip(i as int),
                event.column as int,
                event.row as int,
            ) {
                Some(j) => Some(j + i),
                None => None::<int>,
            },
        decreases panes@.len() - i,
    {
        proof {
            assert(panes@.skip(i as int)[0] == panes@[i as int]);
            assert(panes@.skip(i as int).drop_first() =~= panes@.skip(i as int + 1));
        }
        let pane = &panes[i];
        if pane.rect.contains(Vector2 { x: event.column as i32, y: event.row as i32 }) {
            proof {
                assert(crate::layout::rect_has_point(
                    panes@[i as int].rect,
                    event.column as int,
                    event.row as int,
                ));
                assert(first_pane_idx(
                    panes@.skip(i as int),
                    event.column as int,
                    event.row as int,
                ) == Some(0int));
                assert(first_pane_idx(panes@, event.column as int, event.row as int) == Some(
                    i as int,
                ));
            }
            let set_active = if is_press {
                Some(pane.span_id)
            } else {
                None
            };
            let wants = match pane.mode {
                MouseProtocolMode::Off => false,
                MouseProtocolMode::Press => is_press,
                MouseProtocolMode::PressRelease => is_press || is_release,
                MouseProtocolMode::ButtonMotion => has_press,
                MouseProtocolMode::AnyMotion => true,
            };
            if !wants {
                return MouseAction { set_active, write: None };
            }
            let sx: u16 = event.column - (pane.rect.position.x as u16);
            let sy: u16 = event.row - (pane.rect.position.y as u16);
            let mut bytes: Vec<u8> = Vec::new();
            match pane.encoding {
                MouseProtocolEncoding::Default => {
                    bytes.push(27);
                    bytes.push(91);
                    bytes.push(77);
                    let cb = char_or_nul(35);
                    let cx = char_or_nul(sx as u32 + 33);
                    let cy = char_or_nul(sy as u32 + 33);
                    let mut b1 = CellValue::from_char(cb).to_vec();
                    bytes.append(&mut b1);
                    let mut b2 = CellValue::from_char(cx).to_vec();
                    bytes.append(&mut b2);
                    let mut b3 = CellValue::from_char(cy).to_vec();
                    bytes.append(&mut b3);
                    proof {
                        assert(bytes@ =~= legacy_report_bytes(cb, cx, cy));
                    }
                },
                MouseProtocolEncoding::Sgr => {
                    bytes.push(27);
                    bytes.push(91);
                    bytes.push(60);
                    let mut d1 = dec_u64(button as u64);
                    bytes.append(&mut d1);
                    bytes.push(59);
                    let mut d2 = dec_u64(sx as u64);
                    bytes.append(&mut d2);
                    bytes.push(59);
                    let mut d3 = dec_u64(sy as u64);
                    bytes.append(&mut d3);
                    bytes.push(if is_release { 109 } else { 77 });
                    proof {
                        assert(bytes@ =~= sgr_report_bytes(
                            button as int,
                            sx as int,
                            sy as int,
                            is_release,
                        ));
                    }
                },
                MouseProtocolEncoding::Utf8 => {
                    bytes.push(27);
                    bytes.push(91);
                    bytes.push(60);
                    let cb = char_or_nul(button as u32);
                    let cx = char_or_nul(sx as u32);
                    let cy = char_or_nul(sy as u32);
                    let mut b1 = CellValue::from_char(cb).to_vec();
                    bytes.append(&mut b1);
                    bytes.push(59);
                    let mut b2 = CellValue::from_char(cx).to_vec();
                    bytes.append(&mut b2);
                    bytes.push(59);
                    let mut b3 = CellValue::from_char(cy).to_vec();
                    bytes.append(&mut b3);
                    bytes.push(if is_release { 109 } else { 77 });
                    proof {
                        assert(bytes@ =~= utf8_report_bytes(cb, cx, cy, is_release));
                    }
                },
            }
            return MouseAction { set_active, write: Some((pane.span_id, bytes)) };
        }
        i = i + 1;
    }
    proof {
        assert(panes@.skip(panes@.len() as int).len() == 0);
    }
    MouseAction { set_active: None, write: None }
}

} // verus!
