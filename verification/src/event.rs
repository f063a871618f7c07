//! Event normalization: raw terminal input events → [`TernEvent`].
//!
//! Only press-kind key events are surfaced; repeat and release key events
//! are dropped. Resize, focus gained/lost, and mouse events (press, release,
//! drag, move, wheel) are surfaced with their modifier state; paste events
//! are surfaced as [`TernEvent::Paste`].

use vstd::prelude::*;

verus! {

/// The logical name of a key.
#[derive(Debug, Clone, Copy, PartialEq, Eq, Structural, Hash)]
pub enum KeyName {
    /// A printable character (see [`TernKey::char`]).
    Char,
    Enter,
    Escape,
    Backspace,
    Tab,
    /// Shift+Tab.
    BackTab,
    Delete,
    Insert,
    Home,
    End,
    PageUp,
    PageDown,
    Up,
    Down,
    Left,
    Right,
    /// A function key (F1..).
    F(u8),
    Null,
    /// Any key this vocabulary does not name.
    Unknown,
}

/// A normalized key press: its name, its character (for
/// [`KeyName::Char`]), and the modifier state.
#[derive(Debug, Clone, Copy, PartialEq, Eq, Structural, Hash)]
pub struct TernKey {
    pub name: KeyName,
    pub char: Option<char>,
    pub ctrl: bool,
    pub alt: bool,
    pub shift: bool,
}

impl TernKey {
    /// A key from its parts.
    pub fn new(name: KeyName, char: Option<char>, ctrl: bool, alt: bool, shift: bool) -> (k: Self)
        ensures
            k == (TernKey { name, char, ctrl, alt, shift }),
    {
        TernKey { name, char, ctrl, alt, shift }
    }
}

/// A mouse button.
#[derive(Debug, Clone, Copy, PartialEq, Eq, Structural, Hash)]
pub enum MouseButton {
    Left,
    Right,
    Middle,
}

/// What a mouse event reports.
#[derive(Debug, Clone, Copy, PartialEq, Eq, Structural, Hash)]
pub enum MouseEventKind {
    Down(MouseButton),
    Up(MouseButton),
    Drag(MouseButton),
    Moved,
    ScrollDown,
    ScrollUp,
    ScrollLeft,
    ScrollRight,
}

/// A normalized mouse event: its kind, the cell it happened at, and the
/// modifier state.
#[derive(Debug, Clone, Copy, PartialEq, Eq, Structural, Hash)]
pub struct TernMouse {
    pub kind: MouseEventKind,
    pub column: u16,
    pub row: u16,
    pub ctrl: bool,
    pub alt: bool,
    pub shift: bool,
}

/// A normalized input event.
#[derive(Debug, Clone, PartialEq, Eq, Hash)]
pub enum TernEvent {
    Key(TernKey),
    Resize { w: u16, h: u16 },
    FocusGained,
    FocusLost,
    Mouse(TernMouse),
    Paste(String),
}

/// The key code a terminal reports.
#[derive(Debug, Clone, Copy, PartialEq, Eq, Structural, Hash)]
pub enum RawKeyCode {
    Char(char),
    Enter,
    Esc,
    Backspace,
    Tab,
    BackTab,
    Delete,
    Insert,
    Home,
    End,
    PageUp,
    PageDown,
    Up,
    Down,
    Left,
    Right,
    F(u8),
    Null,
    /// Any other code (caps lock, media keys, keypad begin, ...).
    Other,
}

/// Whether a key event is a press, an auto-repeat, or a release.
#[derive(Debug, Clone, Copy, PartialEq, Eq, Structural, Hash)]
pub enum RawKeyKind {
    Press,
    Repeat,
    Release,
}

/// A key event as a terminal reports it.
#[derive(Debug, Clone, Copy, PartialEq, Eq, Structural, Hash)]
pub struct RawKey {
    pub code: RawKeyCode,
    pub kind: RawKeyKind,
    pub ctrl: bool,
    pub alt: bool,
    pub shift: bool,
}

/// An input event as a terminal reports it.
#[derive(Debug, Clone, PartialEq, Eq, Hash)]
pub enum RawEvent {
    Key(RawKey),
    Resize(u16, u16),
    FocusGained,
    FocusLost,
    Mouse(TernMouse),
    Paste(String),
}

/// The name of a key code.
pub open spec fn key_name_spec(code: RawKeyCode) -> KeyName {
    match code {
        RawKeyCode::Char(_) => KeyName::Char,
        RawKeyCode::Enter => KeyName::Enter,
        RawKeyCode::Esc => KeyName::Escape,
        RawKeyCode::Backspace => KeyName::Backspace,
        RawKeyCode::Tab => KeyName::Tab,
        RawKeyCode::BackTab => KeyName::BackTab,
        RawKeyCode::Delete => KeyName::Delete,
        RawKeyCode::Insert => KeyName::Insert,
        RawKeyCode::Home => KeyName::Home,
        RawKeyCode::End => KeyName::End,
        RawKeyCode::PageUp => KeyName::PageUp,
        RawKeyCode::PageDown => KeyName::PageDown,
        RawKeyCode::Up => KeyName::Up,
        RawKeyCode::Down => KeyName::Down,
        RawKeyCode::Left => KeyName::Left,
        RawKeyCode::Right => KeyName::Right,
        RawKeyCode::F(n) => KeyName::F(n),
        RawKeyCode::Null => KeyName::Null,
        RawKeyCode::Other => KeyName::Unknown,
    }
}

/// The normalized form of a key event (its kind aside).
pub open spec fn key_spec(raw: RawKey) -> TernKey {
    TernKey {
        name: key_name_spec(raw.code),
        char: match raw.code {
            RawKeyCode::Char(c) => Some(c),
            _ => None,
        },
        ctrl: raw.ctrl,
        alt: raw.alt,
        shift: raw.shift,
    }
}

/// The normalized form of a key event (its kind aside).
pub fn key_from(raw: RawKey) -> (k: TernKey)
    ensures
        k == key_spec(raw),
{
    let name = match raw.code {
        RawKeyCode::Char(_) => KeyName::Char,
        RawKeyCode::Enter => KeyName::Enter,
        RawKeyCode::Esc => KeyName::Escape,
        RawKeyCode::Backspace => KeyName::Backspace,
        RawKeyCode::Tab => KeyName::Tab,
        RawKeyCode::BackTab => KeyName::BackTab,
        RawKeyCode::Delete => KeyName::Delete,
        RawKeyCode::Insert => KeyName::Insert,
        RawKeyCode::Home => KeyName::Home,
        RawKeyCode::End => KeyName::End,
        RawKeyCode::PageUp => KeyName::PageUp,
        RawKeyCode::PageDown => KeyName::PageDown,
        RawKeyCode::Up => KeyName::Up,
        RawKeyCode::Down => KeyName::Down,
        RawKeyCode::Left => KeyName::Left,
        RawKeyCode::Right => KeyName::Right,
        RawKeyCode::F(n) => KeyName::F(n),
        RawKeyCode::Null => KeyName::Null,
        RawKeyCode::Other => KeyName::Unknown,
    };
    let char = match raw.code {
        RawKeyCode::Char(c) => Some(c),
        _ => None,
    };
    TernKey { name, char, ctrl: raw.ctrl, alt: raw.alt, shift: raw.shift }
}

/// Normalize a raw event: a press-kind key becomes a key event, a repeat or
/// release is dropped, and every other event maps to its counterpart with
/// its payload intact.
pub fn normalize(event: RawEvent) -> (r: Option<TernEvent>)
    ensures
        match event {
            RawEvent::Key(k) => if k.kind == RawKeyKind::Press {
                r == Some(TernEvent::Key(key_spec(k)))
            } else {
                r is None
            },
            RawEvent::Resize(w, h) => r == Some(TernEvent::Resize { w, h }),
            RawEvent::FocusGained => r == Some(TernEvent::FocusGained),
            RawEvent::FocusLost => r == Some(TernEvent::FocusLost),
            RawEvent::Mouse(m) => r == Some(TernEvent::Mouse(m)),
            RawEvent::Paste(text) => r matches Some(TernEvent::Paste(t)) && t@ == text@,
        },
{
    match event {
        RawEvent::Key(key) => match key.kind {
            RawKeyKind::Press => Some(TernEvent::Key(key_from(key))),
            _ => None,
        },
        RawEvent::Resize(w, h) => Some(TernEvent::Resize { w, h }),
        RawEvent::FocusGained => Some(TernEvent::FocusGained),
        RawEvent::FocusLost => Some(TernEvent::FocusLost),
        RawEvent::Mouse(mouse) => Some(TernEvent::Mouse(mouse)),
        RawEvent::Paste(text) => Some(TernEvent::Paste(text)),
    }
}

/// Every key keeps its identity: each raw key code is normalized to the
/// key name of the same key (Backspace to Backspace, Delete to Delete, and
/// so on), a character key carries its character, the modifiers pass
/// through unchanged, and only the catch-all code is unknown.
pub proof fn keys_keep_their_names(raw: RawKey)
    ensures
        raw.code == RawKeyCode::Enter ==> key_spec(raw).name == KeyName::Enter,
        raw.code == RawKeyCode::Esc ==> key_spec(raw).name == KeyName::Escape,
        raw.code == RawKeyCode::Backspace ==> key_spec(raw).name == KeyName::Backspace,
        raw.code == RawKeyCode::Tab ==> key_spec(raw).name == KeyName::Tab,
        raw.code == RawKeyCode::BackTab ==> key_spec(raw).name == KeyName::BackTab,
        raw.code == RawKeyCode::Delete ==> key_spec(raw).name == KeyName::Delete,
        raw.code == RawKeyCode::Insert ==> key_spec(raw).name == KeyName::Insert,
        raw.code == RawKeyCode::Home ==> key_spec(raw).name == KeyName::Home,
        raw.code == RawKeyCode::End ==> key_spec(raw).name == KeyName::End,
        raw.code == RawKeyCode::PageUp ==> key_spec(raw).name == KeyName::PageUp,
        raw.code == RawKeyCode::PageDown ==> key_spec(raw).name == KeyName::PageDown,
        raw.code == RawKeyCode::Up ==> key_spec(raw).name == KeyName::Up,
        raw.code == RawKeyCode::Down ==> key_spec(raw).name == KeyName::Down,
        raw.code == RawKeyCode::Left ==> key_spec(raw).name == KeyName::Left,
        raw.code == RawKeyCode::Right ==> key_spec(raw).name == KeyName::Right,
        raw.code == RawKeyCode::Null ==> key_spec(raw).name == KeyName::Null,
        forall|n: u8| raw.code == RawKeyCode::F(n) ==> key_spec(raw).name == KeyName::F(n),
        forall|c: char| raw.code == RawKeyCode::Char(c) ==> key_spec(raw).name == KeyName::Char && key_spec(raw).char == Some(c),
        !(raw.code is Char) ==> key_spec(raw).char is None,
        key_spec(raw).name == KeyName::Unknown <==> raw.code == RawKeyCode::Other,
        key_spec(raw).ctrl == raw.ctrl && key_spec(raw).alt == raw.alt && key_spec(raw).shift == raw.shift,
{
}

/// Distinct keys stay distinct: two key events with the same normalized
/// name, and the same character for a character key, come from the same
/// key code (unless both are codes the vocabulary does not name).
pub proof fn distinct_keys_stay_distinct(a: RawKey, b: RawKey)
    requires
        key_spec(a).name == key_spec(b).name,
        key_spec(a).char == key_spec(b).char,
        key_spec(a).name != KeyName::Unknown,
    ensures
        a.code == b.code,
{
}

} // verus!
