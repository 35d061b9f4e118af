use citymux::color::{Color, ColorType};
use citymux::escape_codes::{
    AllMotionTracking, CursorForward, EraseCharacter, EraseInDisplay, EraseInDisplayKind,
    MoveCursor, ResetStyle, SetAlternateScreenBuffer, SetCursorVisibility, SgrMouseHandling,
};
use citymux::style::Style;

#[test]
fn cursor_moves_are_one_based() {
    assert_eq!(MoveCursor::new(0, 0).to_vec(), b"\x1b[1;1H".to_vec());
    assert_eq!(MoveCursor::new(4, 9).to_vec(), b"\x1b[5;10H".to_vec());
    assert_eq!(MoveCursor::new(120, 3).to_vec(), b"\x1b[121;4H".to_vec());
}

#[test]
fn erase_and_forward_carry_their_counts() {
    assert_eq!(EraseCharacter::new(7).to_vec(), b"\x1b[7X".to_vec());
    assert_eq!(EraseCharacter::new(1234).to_vec(), b"\x1b[1234X".to_vec());
    assert_eq!(CursorForward::new(8).to_vec(), b"\x1b[8C".to_vec());
}

#[test]
fn toggles_use_h_and_l() {
    assert_eq!(SetCursorVisibility::new(true).to_vec(), b"\x1b[?25h".to_vec());
    assert_eq!(SetCursorVisibility::new(false).to_vec(), b"\x1b[?25l".to_vec());
    assert_eq!(SetAlternateScreenBuffer::enable().to_vec(), b"\x1b[?1049h".to_vec());
    assert_eq!(SetAlternateScreenBuffer::disable().to_vec(), b"\x1b[?1049l".to_vec());
    assert_eq!(AllMotionTracking::new(true).to_vec(), b"\x1b[?1003h".to_vec());
    assert_eq!(SgrMouseHandling::new(true).to_vec(), b"\x1b[?1006h".to_vec());
}

#[test]
fn reset_and_erase_in_display() {
    assert_eq!((ResetStyle {}).to_vec(), b"\x1b[0m".to_vec());
    assert_eq!(EraseInDisplay::new(EraseInDisplayKind::EntireScreen).to_vec(), b"\x1b[2J".to_vec());
    assert_eq!(EraseInDisplay::default().to_vec(), b"\x1b[3J".to_vec());
}

#[test]
fn colors_encode_over_all_three_forms() {
    assert_eq!(Color::default().to_vec(ColorType::Foreground), b"\x1b[39m".to_vec());
    assert_eq!(Color::default().to_vec(ColorType::Background), b"\x1b[49m".to_vec());
    assert_eq!(Color::new_one_byte(1).to_vec(ColorType::Background), b"\x1b[41m".to_vec());
    assert_eq!(Color::new_one_byte(14).to_vec(ColorType::Foreground), b"\x1b[96m".to_vec());
    assert_eq!(Color::new_one_byte(100).to_vec(ColorType::Foreground), b"\x1b[38;5;100m".to_vec());
    assert_eq!(
        Color::new_rgb(1, 22, 133).to_vec(ColorType::Background),
        b"\x1b[48;2;1;22;133m".to_vec()
    );
}

#[test]
fn styles_emit_background_then_foreground() {
    let style = Style::default()
        .with_background_color(Color::new_one_byte(1))
        .with_foreground_color(Color::new_one_byte(2));
    assert_eq!(style.to_vec(), b"\x1b[41m\x1b[32m".to_vec());
}
