//! Builders for the ANSI/VT escape sequences the renderer emits.

use vstd::prelude::*;
use crate::digits::{dec_spec, dec_u64};

verus! {

/// `ESC [ {y+1} ; {x+1} H`: place the cursor at row `y`, column `x`
/// (zero-based here, one-based on the wire).
pub open spec fn move_cursor_bytes(y: int, x: int) -> Seq<u8> {
    seq![0x1bu8, 91u8] + dec_spec(y + 1) + seq![59u8] + dec_spec(x + 1) + seq![72u8]
}

/// `ESC [ 0 m`: reset all styling.
pub open spec fn reset_style_bytes() -> Seq<u8> {
    seq![0x1bu8, 91u8, 48u8, 109u8]
}

/// `ESC [ {n} X`: erase the next `n` characters.
pub open spec fn erase_character_bytes(n: int) -> Seq<u8> {
    seq![0x1bu8, 91u8] + dec_spec(n) + seq![88u8]
}

/// `ESC [ {n} C`: move the cursor `n` cells to the right.
pub open spec fn cursor_forward_bytes(n: int) -> Seq<u8> {
    seq![0x1bu8, 91u8] + dec_spec(n) + seq![67u8]
}

/// `ESC [ ? 25 h` / `ESC [ ? 25 l`: show or hide the cursor.
pub open spec fn cursor_visibility_bytes(visible: bool) -> Seq<u8> {
    seq![0x1bu8, 91u8, 63u8, 50u8, 53u8, if visible { 104u8 } else { 108u8 }]
}

/// `ESC [ ? 1049 h/l`: switch to or from the alternate screen buffer.
pub open spec fn alternate_screen_bytes(enabled: bool) -> Seq<u8> {
    seq![0x1bu8, 91u8, 63u8, 49u8, 48u8, 52u8, 57u8, if enabled { 104u8 } else { 108u8 }]
}

/// `ESC [ ? 1003 h/l`: all-motion mouse tracking.
pub open spec fn all_motion_tracking_bytes(enabled: bool) -> Seq<u8> {
    seq![0x1bu8, 91u8, 63u8, 49u8, 48u8, 48u8, 51u8, if enabled { 104u8 } else { 108u8 }]
}

/// `ESC [ ? 1006 h/l`: SGR mouse reports.
pub open spec fn sgr_mouse_bytes(enabled: bool) -> Seq<u8> {
    seq![0x1bu8, 91u8, 63u8, 49u8, 48u8, 48u8, 54u8, if enabled { 104u8 } else { 108u8 }]
}

/// `ESC [ {k} J`: erase in display.
pub open spec fn erase_in_display_bytes(k: int) -> Seq<u8> {
    seq![0x1bu8, 91u8] + dec_spec(k) + seq![74u8]
}

/// Writes `ESC [`, then the decimal digits of `n`, then `fin`.
fn push_csi_num(out: &mut Vec<u8>, n: u64, fin: u8)
    ensures
        final(out)@ == old(out)@ + seq![0x1bu8, 91u8] + dec_spec(n as int) + seq![fin],
{
    out.push(0x1b);
    out.push(91);
    let mut d = dec_u64(n);
    out.append(&mut d);
    out.push(fin);
    proof {
        assert(out@ =~= old(out)@ + seq![0x1bu8, 91u8] + dec_spec(n as int) + seq![fin]);
    }
}

/// A cursor-placement sequence.
pub struct MoveCursor {
    pub y: i32,
    pub x: i32,
}

impl MoveCursor {
    pub fn new(y: i32, x: i32) -> (r: Self)
        ensures
            r.y == y,
            r.x == x,
    {
        MoveCursor { y, x }
    }

    pub fn to_vec(&self) -> (r: Vec<u8>)
        requires
            0 <= self.y,
            0 <= self.x,
        ensures
            r@ == move_cursor_bytes(self.y as int, self.x as int),
    {
        let mut out: Vec<u8> = Vec::new();
        out.push(0x1b);
        out.push(91);
        let mut d = dec_u64((self.y as u64) + 1);
        out.append(&mut d);
        out.push(59);
        let mut d2 = dec_u64((self.x as u64) + 1);
        out.append(&mut d2);
        out.push(72);
        proof {
            assert(out@ =~= move_cursor_bytes(self.y as int, self.x as int));
        }
        out
    }
}

/// The alternate-screen-buffer toggle.
pub struct SetAlternateScreenBuffer {
    pub is_enabled: bool,
}

impl SetAlternateScreenBuffer {
    pub fn new(value: bool) -> (r: Self)
        ensures
            r.is_enabled == value,
    {
        SetAlternateScreenBuffer { is_enabled: value }
    }

    pub fn enable() -> (r: Self)
        ensures
            r.is_enabled,
    {
        SetAlternateScreenBuffer { is_enabled: true }
    }

    pub fn disable() -> (r: Self)
        ensures
            !r.is_enabled,
    {
        SetAlternateScreenBuffer { is_enabled: false }
    }

    pub fn to_vec(&self) -> (r: Vec<u8>)
        ensures
            r@ == alternate_screen_bytes(self.is_enabled),
    {
        let mut out: Vec<u8> = Vec::new();
        out.push(0x1b);
        out.push(91);
        out.push(63);
        out.push(49);
        out.push(48);
        out.push(52);
        out.push(57);
        out.push(if self.is_enabled { 104 } else { 108 });
        proof {
            assert(out@ =~= alternate_screen_bytes(self.is_enabled));
        }
        out
    }
}

/// The conceal-mode switch, on.
pub struct EnableConcealMode {}

impl EnableConcealMode {
    /// `ESC [ 8 m`.
    pub fn to_vec(&self) -> (r: Vec<u8>)
        ensures
            r@ == seq![0x1bu8, 91u8, 56u8, 109u8],
    {
        let mut out: Vec<u8> = Vec::new();
        out.push(0x1b);
        out.push(91);
        out.push(56);
        out.push(109);
        proof {
            assert(out@ =~= seq![0x1bu8, 91u8, 56u8, 109u8]);
        }
        out
    }
}

/// The conceal-mode switch, off.
pub struct DisableConcealMode {}

impl DisableConcealMode {
    /// `ESC [ 28 m`.
    pub fn to_vec(&self) -> (r: Vec<u8>)
        ensures
            r@ == seq![0x1bu8, 91u8, 50u8, 56u8, 109u8],
    {
        let mut out: Vec<u8> = Vec::new();
        out.push(0x1b);
        out.push(91);
        out.push(50);
        out.push(56);
        out.push(109);
        proof {
            assert(out@ =~= seq![0x1bu8, 91u8, 50u8, 56u8, 109u8]);
        }
        out
    }
}

/// The cursor-position report request.
pub struct RequestCursorPosition {}

impl RequestCursorPosition {
    /// `ESC [ 6 n`.
    pub fn to_vec(&self) -> (r: Vec<u8>)
        ensures
            r@ == seq![0x1bu8, 91u8, 54u8, 110u8],
    {
        let mut out: Vec<u8> = Vec::new();
        out.push(0x1b);
        out.push(91);
        out.push(54);
        out.push(110);
        proof {
            assert(out@ =~= seq![0x1bu8, 91u8, 54u8, 110u8]);
        }
        out
    }
}

/// The progressive-keyboard-enhancement request.
pub struct EnableComprehensiveKeyboardHandling {}

impl EnableComprehensiveKeyboardHandling {
    /// `ESC [ > 1 u`.
    pub fn to_vec(&self) -> (r: Vec<u8>)
        ensures
            r@ == seq![0x1bu8, 91u8, 62u8, 49u8, 117u8],
    {
        let mut out: Vec<u8> = Vec::new();
        out.push(0x1b);
        out.push(91);
        out.push(62);
        out.push(49);
        out.push(117);
        proof {
            assert(out@ =~= seq![0x1bu8, 91u8, 62u8, 49u8, 117u8]);
        }
        out
    }
}

/// Which part of the display an erase request clears.
#[derive(Clone, Copy, Debug, PartialEq, Eq, Structural)]
pub enum EraseInDisplayKind {
    FromCursorToEndOfScreen,
    FromCursorToBeginningOfScreen,
    EntireScreen,
    EntireScreenAndScrollbackBuffer,
}

pub open spec fn erase_kind_value(kind: EraseInDisplayKind) -> int {
    match kind {
        EraseInDisplayKind::FromCursorToEndOfScreen => 0,
        EraseInDisplayKind::FromCursorToBeginningOfScreen => 1,
        EraseInDisplayKind::EntireScreen => 2,
        EraseInDisplayKind::EntireScreenAndScrollbackBuffer => 3,
    }
}

/// An erase-in-display sequence.
pub struct EraseInDisplay {
    pub value: u8,
}

impl EraseInDisplay {
    pub fn new(kind: EraseInDisplayKind) -> (r: Self)
        ensures
            r.value == erase_kind_value(kind),
    {
        let value: u8 = match kind {
            EraseInDisplayKind::FromCursorToEndOfScreen => 0,
            EraseInDisplayKind::FromCursorToBeginningOfScreen => 1,
            EraseInDisplayKind::EntireScreen => 2,
            EraseInDisplayKind::EntireScreenAndScrollbackBuffer => 3,
        };
        EraseInDisplay { value }
    }

    pub fn to_vec(&self) -> (r: Vec<u8>)
        ensures
            r@ == erase_in_display_bytes(self.value as int),
    {
        let mut out: Vec<u8> = Vec::new();
        push_csi_num(&mut out, self.value as u64, 74);
        proof {
            assert(out@ =~= erase_in_display_bytes(self.value as int));
        }
        out
    }
}

impl Default for EraseInDisplay {
    /// The whole screen and the scrollback buffer.
    fn default() -> (r: Self)
        ensures
            r.value == 3,
    {
        EraseInDisplay { value: 3 }
    }
}

/// The cursor-visibility toggle.
pub struct SetCursorVisibility {
    pub is_visible: bool,
}

impl SetCursorVisibility {
    pub fn new(value: bool) -> (r: Self)
        ensures
            r.is_visible == value,
    {
        SetCursorVisibility { is_visible: value }
    }

    pub fn to_vec(&self) -> (r: Vec<u8>)
        ensures
            r@ == cursor_visibility_bytes(self.is_visible),
    {
        let mut out: Vec<u8> = Vec::new();
        out.push(0x1b);
        out.push(91);
        out.push(63);
        out.push(50);
        out.push(53);
        out.push(if self.is_visible { 104 } else { 108 });
        proof {
            assert(out@ =~= cursor_visibility_bytes(self.is_visible));
        }
        out
    }
}

/// The style reset.
pub struct ResetStyle {}

impl ResetStyle {
    pub fn to_vec(&self) -> (r: Vec<u8>)
        ensures
            r@ == reset_style_bytes(),
    {
        let mut out: Vec<u8> = Vec::new();
        out.push(0x1b);
        out.push(91);
        out.push(48);
        out.push(109);
        proof {
            assert(out@ =~= reset_style_bytes());
        }
        out
    }
}

impl Default for ResetStyle {
    fn default() -> (r: Self) {
        ResetStyle {  }
    }
}

/// An erase-characters sequence.
pub struct EraseCharacter {
    pub count: u64,
}

impl EraseCharacter {
    pub fn new(count: u64) -> (r: Self)
        ensures
            r.count == count,
    {
        EraseCharacter { count }
    }

    pub fn to_vec(&self) -> (r: Vec<u8>)
        ensures
            r@ == erase_character_bytes(self.count as int),
    {
        let mut out: Vec<u8> = Vec::new();
        push_csi_num(&mut out, self.count, 88);
        proof {
            assert(out@ =~= erase_character_bytes(self.count as int));
        }
        out
    }
}

/// A cursor-forward sequence.
pub struct CursorForward {
    pub count: u64,
}

impl CursorForward {
    pub fn new(count: u64) -> (r: Self)
        ensures
            r.count == count,
    {
        CursorForward { count }
    }

    pub fn to_vec(&self) -> (r: Vec<u8>)
        ensures
            r@ == cursor_forward_bytes(self.count as int),
    {
        let mut out: Vec<u8> = Vec::new();
        push_csi_num(&mut out, self.count, 67);
        proof {
            assert(out@ =~= cursor_forward_bytes(self.count as int));
        }
        out
    }
}

/// The all-motion mouse-tracking toggle.
pub struct AllMotionTracking {
    pub is_enabled: bool,
}

impl AllMotionTracking {
    pub fn new(value: bool) -> (r: Self)
        ensures
            r.is_enabled == value,
    {
        AllMotionTracking { is_enabled: value }
    }

    pub fn to_vec(&self) -> (r: Vec<u8>)
        ensures
            r@ == all_motion_tracking_bytes(self.is_enabled),
    {
        let mut out: Vec<u8> = Vec::new();
        out.push(0x1b);
        out.push(91);
        out.push(63);
        out.push(49);
        out.push(48);
        out.push(48);
        out.push(51);
        out.push(if self.is_enabled { 104 } else { 108 });
        proof {
            assert(out@ =~= all_motion_tracking_bytes(self.is_enabled));
        }
        out
    }
}

/// The SGR mouse-report toggle.
pub struct SgrMouseHandling {
    pub is_enabled: bool,
}

impl SgrMouseHandling {
    pub fn new(value: bool) -> (r: Self)
        ensures
            r.is_enabled == value,
    {
        SgrMouseHandling { is_enabled: value }
    }

    pub fn to_vec(&self) -> (r: Vec<u8>)
        ensures
            r@ == sgr_mouse_bytes(self.is_enabled),
    {
        let mut out: Vec<u8> = Vec::new();
        out.push(0x1b);
        out.push(91);
        out.push(63);
        out.push(49);
        out.push(48);
        out.push(48);
        out.push(54);
        out.push(if self.is_enabled { 104 } else { 108 });
        proof {
            assert(out@ =~= sgr_mouse_bytes(self.is_enabled));
        }
        out
    }
}

} // verus!
