//! The events that the windowing layer hands to an application.

use super::window::{WindowPosition, WindowSize};
use vstd::prelude::*;

verus! {

/// What happened to the window.
pub enum WindowEvent {
    Resized(WindowSize),
    Moved(WindowPosition),
    CloseRequested,
    FocusChanged,
    DroppedFile,
    HoveredFile,
}

/// A key went down or came up.
pub enum KeyboardEvent {
    KeyPressed(KeyCode),
    KeyReleased(KeyCode),
}

/// A button of the mouse.
#[derive(Clone, Copy, Debug)]
pub enum MouseButton {
    Left,
    Right,
    Middle,
    Back,
    Forward,
    Other,
}

/// The number of mouse buttons.
pub const MOUSE_BUTTONS: usize = 6;

impl MouseButton {
    /// The place of the button among the buttons, in the order of their
    /// declaration.
    pub open spec fn ordinal(self) -> nat {
        match self {
            MouseButton::Left => 0,
            MouseButton::Right => 1,
            MouseButton::Middle => 2,
            MouseButton::Back => 3,
            MouseButton::Forward => 4,
            MouseButton::Other => 5,
        }
    }

    /// The place of the button among the buttons.
    pub fn index(self) -> (i: usize)
        ensures
            i == self.ordinal(),
            i < MOUSE_BUTTONS,
    {
        match self {
            MouseButton::Left => 0,
            MouseButton::Right => 1,
            MouseButton::Middle => 2,
            MouseButton::Back => 3,
            MouseButton::Forward => 4,
            MouseButton::Other => 5,
        }
    }
}

/// A key of the keyboard.
#[derive(Clone, Copy, Debug)]
pub enum KeyCode {
    Digit1,
    Digit2,
    Digit3,
    Digit4,
    Digit5,
    Digit6,
    Digit7,
    Digit8,
    Digit9,
    Digit0,
    A,
    B,
    C,
    D,
    E,
    F,
    G,
    H,
    I,
    J,
    K,
    L,
    M,
    N,
    O,
    P,
    Q,
    R,
    S,
    T,
    U,
    V,
    W,
    X,
    Y,
    Z,
    F1,
    F2,
    F3,
    F4,
    F5,
    F6,
    F7,
    F8,
    F9,
    F10,
    F11,
    F12,
    Apostrophe,
    Backquote,
    Colon,
    Semicolon,
    Period,
    Comma,
    Equal,
    Minus,
    Plus,
    Asterisk,
    Slash,
    Backslash,
    BracketLeft,
    BracketRight,
    Escape,
    Tab,
    CapsLock,
    Backspace,
    Enter,
    ShiftLeft,
    ShiftRight,
    ControlLeft,
    ControlRight,
    AltLeft,
    AltRight,
    Pause,
    Space,
    PageUp,
    PageDown,
    End,
    Home,
    ArrowLeft,
    ArrowUp,
    ArrowRight,
    ArrowDown,
    PrintScreen,
    Insert,
    Delete,
    ScrollLock,
    Numlock,
    Numpad0,
    Numpad1,
    Numpad2,
    Numpad3,
    Numpad4,
    Numpad5,
    Numpad6,
    Numpad7,
    Numpad8,
    Numpad9,
    NumpadAdd,
    NumpadDivide,
    NumpadDecimal,
    NumpadComma,
    NumpadEnter,
    NumpadEquals,
    NumpadMultiply,
    NumpadSubtract,
    OSLeft,
    OSRight,
}

/// The number of keys.
pub const KEYS: usize = 108;

impl KeyCode {
    /// The place of the key among the keys, in the order of their
    /// declaration.
    pub open spec fn ordinal(self) -> nat {
        match self {
            KeyCode::Digit1 => 0,
            KeyCode::Digit2 => 1,
            KeyCode::Digit3 => 2,
            KeyCode::Digit4 => 3,
            KeyCode::Digit5 => 4,
            KeyCode::Digit6 => 5,
            KeyCode::Digit7 => 6,
            KeyCode::Digit8 => 7,
            KeyCode::Digit9 => 8,
            KeyCode::Digit0 => 9,
            KeyCode::A => 10,
            KeyCode::B => 11,
            KeyCode::C => 12,
            KeyCode::D => 13,
            KeyCode::E => 14,
            KeyCode::F => 15,
            KeyCode::G => 16,
            KeyCode::H => 17,
            KeyCode::I => 18,
            KeyCode::J => 19,
            KeyCode::K => 20,
            KeyCode::L => 21,
            KeyCode::M => 22,
            KeyCode::N => 23,
            KeyCode::O => 24,
            KeyCode::P => 25,
            KeyCode::Q => 26,
            KeyCode::R => 27,
            KeyCode::S => 28,
            KeyCode::T => 29,
            KeyCode::U => 30,
            KeyCode::V => 31,
            KeyCode::W => 32,
            KeyCode::X => 33,
            KeyCode::Y => 34,
            KeyCode::Z => 35,
            KeyCode::F1 => 36,
            KeyCode::F2 => 37,
            KeyCode::F3 => 38,
            KeyCode::F4 => 39,
            KeyCode::F5 => 40,
            KeyCode::F6 => 41,
            KeyCode::F7 => 42,
            KeyCode::F8 => 43,
            KeyCode::F9 => 44,
            KeyCode::F10 => 45,
            KeyCode::F11 => 46,
            KeyCode::F12 => 47,
            KeyCode::Apostrophe => 48,
            KeyCode::Backquote => 49,
            KeyCode::Colon => 50,
            KeyCode::Semicolon => 51,
            KeyCode::Period => 52,
            KeyCode::Comma => 53,
            KeyCode::Equal => 54,
            KeyCode::Minus => 55,
            KeyCode::Plus => 56,
            KeyCode::Asterisk => 57,
            KeyCode::Slash => 58,
            KeyCode::Backslash => 59,
            KeyCode::BracketLeft => 60,
            KeyCode::BracketRight => 61,
            KeyCode::Escape => 62,
            KeyCode::Tab => 63,
            KeyCode::CapsLock => 64,
            KeyCode::Backspace => 65,
            KeyCode::Enter => 66,
            KeyCode::ShiftLeft => 67,
            KeyCode::ShiftRight => 68,
            KeyCode::ControlLeft => 69,
            KeyCode::ControlRight => 70,
            KeyCode::AltLeft => 71,
            KeyCode::AltRight => 72,
            KeyCode::Pause => 73,
            KeyCode::Space => 74,
            KeyCode::PageUp => 75,
            KeyCode::PageDown => 76,
            KeyCode::End => 77,
            KeyCode::Home => 78,
            KeyCode::ArrowLeft => 79,
            KeyCode::ArrowUp => 80,
            KeyCode::ArrowRight => 81,
            KeyCode::ArrowDown => 82,
            KeyCode::PrintScreen => 83,
            KeyCode::Insert => 84,
            KeyCode::Delete => 85,
            KeyCode::ScrollLock => 86,
            KeyCode::Numlock => 87,
            KeyCode::Numpad0 => 88,
            KeyCode::Numpad1 => 89,
            KeyCode::Numpad2 => 90,
            KeyCode::Numpad3 => 91,
            KeyCode::Numpad4 => 92,
            KeyCode::Numpad5 => 93,
            KeyCode::Numpad6 => 94,
            KeyCode::Numpad7 => 95,
            KeyCode::Numpad8 => 96,
            KeyCode::Numpad9 => 97,
            KeyCode::NumpadAdd => 98,
            KeyCode::NumpadDivide => 99,
            KeyCode::NumpadDecimal => 100,
            KeyCode::NumpadComma => 101,
            KeyCode::NumpadEnter => 102,
            KeyCode::NumpadEquals => 103,
            KeyCode::NumpadMultiply => 104,
            KeyCode::NumpadSubtract => 105,
            KeyCode::OSLeft => 106,
            KeyCode::OSRight => 107,
        }
    }

    /// The place of the key among the keys.
    pub fn index(self) -> (i: usize)
        ensures
            i == self.ordinal(),
            i < KEYS,
    {
        match self {
            KeyCode::Digit1 => 0,
            KeyCode::Digit2 => 1,
            KeyCode::Digit3 => 2,
            KeyCode::Digit4 => 3,
            KeyCode::Digit5 => 4,
            KeyCode::Digit6 => 5,
            KeyCode::Digit7 => 6,
            KeyCode::Digit8 => 7,
            KeyCode::Digit9 => 8,
            KeyCode::Digit0 => 9,
            KeyCode::A => 10,
            KeyCode::B => 11,
            KeyCode::C => 12,
            KeyCode::D => 13,
            KeyCode::E => 14,
            KeyCode::F => 15,
            KeyCode::G => 16,
            KeyCode::H => 17,
            KeyCode::I => 18,
            KeyCode::J => 19,
            KeyCode::K => 20,
            KeyCode::L => 21,
            KeyCode::M => 22,
            KeyCode::N => 23,
            KeyCode::O => 24,
            KeyCode::P => 25,
            KeyCode::Q => 26,
            KeyCode::R => 27,
            KeyCode::S => 28,
            KeyCode::T => 29,
            KeyCode::U => 30,
            KeyCode::V => 31,
            KeyCode::W => 32,
            KeyCode::X => 33,
            KeyCode::Y => 34,
            KeyCode::Z => 35,
            KeyCode::F1 => 36,
            KeyCode::F2 => 37,
            KeyCode::F3 => 38,
            KeyCode::F4 => 39,
            KeyCode::F5 => 40,
            KeyCode::F6 => 41,
            KeyCode::F7 => 42,
            KeyCode::F8 => 43,
            KeyCode::F9 => 44,
            KeyCode::F10 => 45,
            KeyCode::F11 => 46,
            KeyCode::F12 => 47,
            KeyCode::Apostrophe => 48,
            KeyCode::Backquote => 49,
            KeyCode::Colon => 50,
            KeyCode::Semicolon => 51,
            KeyCode::Period => 52,
            KeyCode::Comma => 53,
            KeyCode::Equal => 54,
            KeyCode::Minus => 55,
            KeyCode::Plus => 56,
            KeyCode::Asterisk => 57,
            KeyCode::Slash => 58,
            KeyCode::Backslash => 59,
            KeyCode::BracketLeft => 60,
            KeyCode::BracketRight => 61,
            KeyCode::Escape => 62,
            KeyCode::Tab => 63,
            KeyCode::CapsLock => 64,
            KeyCode::Backspace => 65,
            KeyCode::Enter => 66,
            KeyCode::ShiftLeft => 67,
            KeyCode::ShiftRight => 68,
            KeyCode::ControlLeft => 69,
            KeyCode::ControlRight => 70,
            KeyCode::AltLeft => 71,
            KeyCode::AltRight => 72,
            KeyCode::Pause => 73,
            KeyCode::Space => 74,
            KeyCode::PageUp => 75,
            KeyCode::PageDown => 76,
            KeyCode::End => 77,
            KeyCode::Home => 78,
            KeyCode::ArrowLeft => 79,
            KeyCode::ArrowUp => 80,
            KeyCode::ArrowRight => 81,
            KeyCode::ArrowDown => 82,
            KeyCode::PrintScreen => 83,
            KeyCode::Insert => 84,
            KeyCode::Delete => 85,
            KeyCode::ScrollLock => 86,
            KeyCode::Numlock => 87,
            KeyCode::Numpad0 => 88,
            KeyCode::Numpad1 => 89,
            KeyCode::Numpad2 => 90,
            KeyCode::Numpad3 => 91,
            KeyCode::Numpad4 => 92,
            KeyCode::Numpad5 => 93,
            KeyCode::Numpad6 => 94,
            KeyCode::Numpad7 => 95,
            KeyCode::Numpad8 => 96,
            KeyCode::Numpad9 => 97,
            KeyCode::NumpadAdd => 98,
            KeyCode::NumpadDivide => 99,
            KeyCode::NumpadDecimal => 100,
            KeyCode::NumpadComma => 101,
            KeyCode::NumpadEnter => 102,
            KeyCode::NumpadEquals => 103,
            KeyCode::NumpadMultiply => 104,
            KeyCode::NumpadSubtract => 105,
            KeyCode::OSLeft => 106,
            KeyCode::OSRight => 107,
        }
    }
}

} // verus!
