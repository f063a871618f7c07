use tern::event::{
    key_from, normalize, KeyName, MouseButton, MouseEventKind, RawEvent, RawKey, RawKeyCode,
    RawKeyKind, TernEvent, TernKey, TernMouse,
};

#[derive(Clone, Copy)]
struct Mods {
    ctrl: bool,
    alt: bool,
    shift: bool,
}

const NONE: Mods = Mods { ctrl: false, alt: false, shift: false };
const CONTROL: Mods = Mods { ctrl: true, alt: false, shift: false };
const SHIFT: Mods = Mods { ctrl: false, alt: false, shift: true };
const ALT: Mods = Mods { ctrl: false, alt: true, shift: false };

fn raw_key(code: RawKeyCode, m: Mods, kind: RawKeyKind) -> RawEvent {
    RawEvent::Key(RawKey { code, kind, ctrl: m.ctrl, alt: m.alt, shift: m.shift })
}

/// Normalize a key press and return the key.
fn key(code: RawKeyCode, m: Mods) -> TernKey {
    match normalize(raw_key(code, m, RawKeyKind::Press)) {
        Some(TernEvent::Key(k)) => k,
        other => panic!("expected a key event, got {other:?}"),
    }
}

fn mouse(kind: MouseEventKind, column: u16, row: u16, m: Mods) -> RawEvent {
    RawEvent::Mouse(TernMouse { kind, column, row, ctrl: m.ctrl, alt: m.alt, shift: m.shift })
}

#[test]
fn ctrl_c_maps_to_ctrl_char_c() {
    let k = key(RawKeyCode::Char('c'), CONTROL);
    assert_eq!(k.name, KeyName::Char);
    assert_eq!(k.char, Some('c'));
    assert!(k.ctrl);
    assert!(!k.alt);
    assert!(!k.shift);
}

#[test]
fn enter_maps_to_enter() {
    let k = key(RawKeyCode::Enter, NONE);
    assert_eq!(k.name, KeyName::Enter);
    assert_eq!(k.char, None);
    assert!(!k.ctrl && !k.alt && !k.shift);
}

#[test]
fn escape_maps_to_escape() {
    let k = key(RawKeyCode::Esc, NONE);
    assert_eq!(k.name, KeyName::Escape);
    assert_eq!(k.char, None);
}

#[test]
fn arrow_keys_map() {
    assert_eq!(key(RawKeyCode::Up, NONE).name, KeyName::Up);
    assert_eq!(key(RawKeyCode::Down, NONE).name, KeyName::Down);
    assert_eq!(key(RawKeyCode::Left, NONE).name, KeyName::Left);
    assert_eq!(key(RawKeyCode::Right, NONE).name, KeyName::Right);
}

#[test]
fn char_keys_map() {
    let k = key(RawKeyCode::Char('a'), NONE);
    assert_eq!(k.name, KeyName::Char);
    assert_eq!(k.char, Some('a'));

    let k = key(RawKeyCode::Char('Z'), SHIFT);
    assert_eq!(k.name, KeyName::Char);
    assert_eq!(k.char, Some('Z'));
    assert!(k.shift);
}

#[test]
fn modifier_keys_are_flagged() {
    let k = key(RawKeyCode::Up, SHIFT);
    assert_eq!(k.name, KeyName::Up);
    assert!(k.shift);

    let k = key(RawKeyCode::Char('a'), ALT);
    assert!(k.alt);
    assert_eq!(k.char, Some('a'));
}

#[test]
fn shift_tab_maps_to_backtab() {
    assert_eq!(key(RawKeyCode::BackTab, NONE).name, KeyName::BackTab);
}

#[test]
fn function_keys_map() {
    assert_eq!(key(RawKeyCode::F(1), NONE).name, KeyName::F(1));
    assert_eq!(key(RawKeyCode::F(12), NONE).name, KeyName::F(12));
}

#[test]
fn other_codes_map_to_unknown() {
    let k = key(RawKeyCode::Other, NONE);
    assert_eq!(k, TernKey::new(KeyName::Unknown, None, false, false, false));
    assert_eq!(key(RawKeyCode::PageDown, NONE).name, KeyName::PageDown);
    assert_eq!(key(RawKeyCode::Null, NONE).name, KeyName::Null);
}

#[test]
fn key_from_ignores_the_kind() {
    let raw = RawKey {
        code: RawKeyCode::Char('q'),
        kind: RawKeyKind::Release,
        ctrl: true,
        alt: false,
        shift: false,
    };
    assert_eq!(key_from(raw), TernKey::new(KeyName::Char, Some('q'), true, false, false));
}

#[test]
fn resize_maps_to_resize() {
    assert_eq!(normalize(RawEvent::Resize(120, 40)), Some(TernEvent::Resize { w: 120, h: 40 }));
}

#[test]
fn focus_gained_maps() {
    assert_eq!(normalize(RawEvent::FocusGained), Some(TernEvent::FocusGained));
}

#[test]
fn focus_lost_maps() {
    assert_eq!(normalize(RawEvent::FocusLost), Some(TernEvent::FocusLost));
}

#[test]
fn mouse_press_maps_to_down() {
    assert_eq!(
        normalize(mouse(MouseEventKind::Down(MouseButton::Left), 3, 4, NONE)),
        Some(TernEvent::Mouse(TernMouse {
            kind: MouseEventKind::Down(MouseButton::Left),
            column: 3,
            row: 4,
            ctrl: false,
            alt: false,
            shift: false,
        }))
    );
}

#[test]
fn mouse_release_maps_to_up() {
    assert_eq!(
        normalize(mouse(MouseEventKind::Up(MouseButton::Right), 1, 2, NONE)),
        Some(TernEvent::Mouse(TernMouse {
            kind: MouseEventKind::Up(MouseButton::Right),
            column: 1,
            row: 2,
            ctrl: false,
            alt: false,
            shift: false,
        }))
    );
}

#[test]
fn mouse_move_maps_to_moved() {
    assert_eq!(
        normalize(mouse(MouseEventKind::Moved, 7, 8, NONE)),
        Some(TernEvent::Mouse(TernMouse {
            kind: MouseEventKind::Moved,
            column: 7,
            row: 8,
            ctrl: false,
            alt: false,
            shift: false,
        }))
    );
}

#[test]
fn mouse_drag_maps_to_drag() {
    assert_eq!(
        normalize(mouse(MouseEventKind::Drag(MouseButton::Middle), 5, 6, NONE)),
        Some(TernEvent::Mouse(TernMouse {
            kind: MouseEventKind::Drag(MouseButton::Middle),
            column: 5,
            row: 6,
            ctrl: false,
            alt: false,
            shift: false,
        }))
    );
}

#[test]
fn wheel_events_map() {
    for kind in [
        MouseEventKind::ScrollUp,
        MouseEventKind::ScrollDown,
        MouseEventKind::ScrollLeft,
        MouseEventKind::ScrollRight,
    ] {
        assert_eq!(
            normalize(mouse(kind, 9, 9, NONE)),
            Some(TernEvent::Mouse(TernMouse {
                kind,
                column: 9,
                row: 9,
                ctrl: false,
                alt: false,
                shift: false,
            }))
        );
    }
}

#[test]
fn mouse_modifiers_are_flagged() {
    let all = Mods { ctrl: true, alt: true, shift: true };
    match normalize(mouse(MouseEventKind::Down(MouseButton::Left), 0, 0, all)) {
        Some(TernEvent::Mouse(m)) => {
            assert!(m.ctrl);
            assert!(m.alt);
            assert!(m.shift);
        }
        other => panic!("expected a mouse event, got {other:?}"),
    }
}

#[test]
fn release_kind_is_filtered() {
    assert_eq!(normalize(raw_key(RawKeyCode::Char('x'), NONE, RawKeyKind::Release)), None);
}

#[test]
fn repeat_kind_is_filtered() {
    assert_eq!(normalize(raw_key(RawKeyCode::Char('x'), NONE, RawKeyKind::Repeat)), None);
}

#[test]
fn paste_events_map_to_paste() {
    assert_eq!(
        normalize(RawEvent::Paste("pasted".into())),
        Some(TernEvent::Paste("pasted".into()))
    );
}

#[test]
fn paste_payload_round_trips_losslessly() {
    for payload in ["line1\nline2\ttabbed", "héllo 世界"] {
        assert_eq!(
            normalize(RawEvent::Paste(payload.into())),
            Some(TernEvent::Paste(payload.into()))
        );
    }
}
