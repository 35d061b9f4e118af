use citymux::input::{
    key_event_to_bytes, map_button_to_int, mouse_event_actions, navigation_target,
    shortcut_action, KeyCode, KeyEvent, KeyEventConversionOptions, KeyEventKind, KeyModifiers,
    MouseButton, MouseButtons, MouseEvent, MouseEventKind, PaneMouseInfo, ShortcutAction,
};
use citymux::rect::Rect;
use citymux::term::{MouseProtocolEncoding, MouseProtocolMode};
use citymux::vector::Vector2;

fn plain(code: KeyCode) -> KeyEvent {
    KeyEvent {
        code,
        modifiers: KeyModifiers { control: false, alt: false, shift: false },
        kind: KeyEventKind::Press,
    }
}

fn opts() -> KeyEventConversionOptions {
    KeyEventConversionOptions::default()
}

#[test]
fn plain_keys_encode_as_expected() {
    assert_eq!(key_event_to_bytes(plain(KeyCode::Enter), opts()), b"\r".to_vec());
    assert_eq!(key_event_to_bytes(plain(KeyCode::Backspace), opts()), vec![0x7f]);
    assert_eq!(key_event_to_bytes(plain(KeyCode::Left), opts()), b"\x1b[D".to_vec());
    assert_eq!(key_event_to_bytes(plain(KeyCode::Delete), opts()), b"\x1b[3~".to_vec());
    assert_eq!(key_event_to_bytes(plain(KeyCode::Char('x')), opts()), b"x".to_vec());
    assert_eq!(key_event_to_bytes(plain(KeyCode::Esc), opts()), vec![0x1b]);
}

#[test]
fn application_keypad_mode_switches_prefixes() {
    let app = opts().with_application_keypad_mode(true);
    assert_eq!(key_event_to_bytes(plain(KeyCode::Enter), app), b"\x1bOM".to_vec());
    assert_eq!(key_event_to_bytes(plain(KeyCode::Up), app), b"\x1bOA".to_vec());
    assert_eq!(key_event_to_bytes(plain(KeyCode::PageUp), app), b"\x1bO5".to_vec());
    assert_eq!(key_event_to_bytes(plain(KeyCode::Tab), app), b"\x1bOI".to_vec());
}

#[test]
fn control_and_alt_letters() {
    let mut ev = plain(KeyCode::Char('c'));
    ev.modifiers.control = true;
    assert_eq!(key_event_to_bytes(ev, opts()), vec![3]);
    let mut ev = plain(KeyCode::Char('a'));
    ev.modifiers.alt = true;
    assert_eq!(key_event_to_bytes(ev, opts()), b"\x1ba".to_vec());
}

#[test]
fn release_events_send_nothing() {
    let mut ev = plain(KeyCode::Char('x'));
    ev.kind = KeyEventKind::Release;
    assert_eq!(key_event_to_bytes(ev, opts()), Vec::<u8>::new());
}

#[test]
fn shortcuts_need_the_alt_modifier() {
    let mut ev = plain(KeyCode::Char('q'));
    assert_eq!(shortcut_action(ev), None);
    ev.modifiers.alt = true;
    assert_eq!(shortcut_action(ev), Some(ShortcutAction::KillActive));
    let mut ev = plain(KeyCode::Char('n'));
    ev.modifiers.alt = true;
    assert_eq!(shortcut_action(ev), Some(ShortcutAction::CreatePane));
    let mut ev = plain(KeyCode::Right);
    ev.modifiers.alt = true;
    assert_eq!(shortcut_action(ev), Some(ShortcutAction::Navigate(Vector2::new(1, 0))));
}

#[test]
fn navigation_probes_one_cell_past_the_edge() {
    let current = Rect::new(Vector2::new(0, 0), Vector2::new(40, 24));
    let panes = vec![
        (1, Rect::new(Vector2::new(0, 0), Vector2::new(40, 24))),
        (2, Rect::new(Vector2::new(40, 0), Vector2::new(40, 24))),
    ];
    assert_eq!(navigation_target(current, Vector2::new(1, 0), &panes), Some(2));
    assert_eq!(navigation_target(current, Vector2::new(-1, 0), &panes), None);
    assert_eq!(navigation_target(current, Vector2::new(0, 1), &panes), None);
}

#[test]
fn mouse_press_focuses_and_reports_sgr() {
    let panes = vec![PaneMouseInfo {
        span_id: 7,
        rect: Rect::new(Vector2::new(10, 5), Vector2::new(20, 10)),
        mode: MouseProtocolMode::PressRelease,
        encoding: MouseProtocolEncoding::Sgr,
    }];
    let mut buttons = MouseButtons::default();
    let event = MouseEvent {
        kind: MouseEventKind::Down(MouseButton::Left),
        column: 13,
        row: 7,
    };
    let action = mouse_event_actions(event, &panes, &mut buttons);
    assert_eq!(action.set_active, Some(7));
    let (target, bytes) = action.write.unwrap();
    assert_eq!(target, 7);
    assert_eq!(bytes, b"\x1b[<0;3;2M".to_vec());
    assert!(buttons.left);
    let up = MouseEvent { kind: MouseEventKind::Up(MouseButton::Left), column: 13, row: 7 };
    let action = mouse_event_actions(up, &panes, &mut buttons);
    assert_eq!(action.set_active, None);
    let (_, bytes) = action.write.unwrap();
    assert_eq!(bytes, b"\x1b[<0;3;2m".to_vec());
    assert!(!buttons.left);
}

#[test]
fn mouse_motion_is_dropped_unless_asked_for() {
    let panes = vec![PaneMouseInfo {
        span_id: 7,
        rect: Rect::new(Vector2::new(0, 0), Vector2::new(20, 10)),
        mode: MouseProtocolMode::Press,
        encoding: MouseProtocolEncoding::Sgr,
    }];
    let mut buttons = MouseButtons::default();
    let event = MouseEvent { kind: MouseEventKind::Moved, column: 3, row: 3 };
    let action = mouse_event_actions(event, &panes, &mut buttons);
    assert_eq!(action.set_active, None);
    assert!(action.write.is_none());
}

#[test]
fn legacy_mouse_reports_use_offset_characters() {
    let panes = vec![PaneMouseInfo {
        span_id: 1,
        rect: Rect::new(Vector2::new(0, 0), Vector2::new(20, 10)),
        mode: MouseProtocolMode::Press,
        encoding: MouseProtocolEncoding::Default,
    }];
    let mut buttons = MouseButtons::default();
    let event = MouseEvent { kind: MouseEventKind::Down(MouseButton::Left), column: 2, row: 1 };
    let action = mouse_event_actions(event, &panes, &mut buttons);
    let (_, bytes) = action.write.unwrap();
    // The frame is ESC [ M, then the fixed button character (3 + 32)
    // and the coordinates offset by 33, all sent as characters.
    assert_eq!(bytes, b"\x1b[M##\"".to_vec());
}

#[test]
fn buttons_map_to_wire_numbers() {
    assert_eq!(map_button_to_int(MouseButton::Left), 0);
    assert_eq!(map_button_to_int(MouseButton::Middle), 1);
    assert_eq!(map_button_to_int(MouseButton::Right), 2);
}
