//! Input events: keys, mouse, paste and resize.

use vstd::prelude::*;
use crate::geometry::{Pos, Size};

verus! {

/// Whether a modifier key is held down.
#[derive(Clone, Copy, Debug, PartialEq, Eq, Structural)]
pub enum KeyState {
    Pressed,
    NotPressed,
}

/// The modifier keys that go with a key press or a mouse event.
#[derive(Clone, Copy, Debug, PartialEq, Eq, Structural)]
pub struct ModifierKeysMask {
    pub shift_key_state: KeyState,
    pub ctrl_key_state: KeyState,
    pub alt_key_state: KeyState,
}

/// Keys that stand for no character.
#[derive(Clone, Copy, Debug, PartialEq, Eq, Structural)]
pub enum SpecialKey {
    Backspace,
    Enter,
    Left,
    Right,
    Up,
    Down,
    Home,
    End,
    PageUp,
    PageDown,
    Tab,
    BackTab,
    Delete,
    Insert,
    Esc,
}

/// A key.
#[derive(Clone, Copy, Debug, PartialEq, Eq, Structural)]
pub enum Key {
    Character(char),
    SpecialKey(SpecialKey),
    /// A function key, by its number.
    FunctionKey(u8),
    /// A key that only the Kitty keyboard protocol reports, by its code.
    KittyKeyboardProtocol(u32),
}

/// A key press, with or without modifier keys.
#[derive(Clone, Copy, Debug, PartialEq, Eq, Structural)]
pub enum KeyPress {
    Plain { key: Key },
    WithModifiers { key: Key, mask: ModifierKeysMask },
}

/// A mouse button.
#[derive(Clone, Copy, Debug, PartialEq, Eq, Structural)]
pub enum Button {
    Left,
    Right,
    Middle,
    Unknown,
}

/// What the mouse did.
#[derive(Clone, Copy, Debug, PartialEq, Eq, Structural)]
pub enum MouseInputKind {
    MouseDown(Button),
    MouseUp(Button),
    MouseMove,
    MouseDrag(Button),
    ScrollUp,
    ScrollDown,
    ScrollLeft,
    ScrollRight,
}

/// A mouse event, at a cell of the surface.
#[derive(Clone, Copy, Debug, PartialEq, Eq, Structural)]
pub struct MouseInput {
    pub pos: Pos,
    pub kind: MouseInputKind,
    pub maybe_modifier_keys: Option<ModifierKeysMask>,
}

/// An input event.
#[derive(Debug)]
pub enum InputEvent {
    Keyboard(KeyPress),
    Resize(Size),
    Mouse(MouseInput),
    /// The terminal window gained the focus (`true`) or lost it (`false`).
    Focus(bool),
    BracketedPaste(String),
}

/// What becomes of an event that a component has seen.
#[derive(Clone, Copy, Debug, PartialEq, Eq, Structural)]
pub enum EventPropagation {
    /// The event goes on to others.
    Propagate,
    /// The event ends here and nothing changed on the screen.
    Consumed,
    /// The event ends here and the screen has to be drawn anew.
    ConsumedRender,
    /// The program ends.
    ExitMainEventLoop,
}

impl ModifierKeysMask {
    /// No modifier key.
    pub open spec fn none() -> ModifierKeysMask {
        ModifierKeysMask {
            shift_key_state: KeyState::NotPressed,
            ctrl_key_state: KeyState::NotPressed,
            alt_key_state: KeyState::NotPressed,
        }
    }

    /// The control key alone.
    pub open spec fn ctrl() -> ModifierKeysMask {
        ModifierKeysMask { ctrl_key_state: KeyState::Pressed, ..ModifierKeysMask::none() }
    }

    /// The alt key alone.
    pub open spec fn alt() -> ModifierKeysMask {
        ModifierKeysMask { alt_key_state: KeyState::Pressed, ..ModifierKeysMask::none() }
    }

    /// The shift key alone.
    pub open spec fn shift() -> ModifierKeysMask {
        ModifierKeysMask { shift_key_state: KeyState::Pressed, ..ModifierKeysMask::none() }
    }

    /// Whether the control key alone is held down.
    pub fn is_ctrl(&self) -> (r: bool)
        ensures
            r == (*self == ModifierKeysMask::ctrl()),
    {
        self.ctrl_key_state == KeyState::Pressed && self.alt_key_state == KeyState::NotPressed
            && self.shift_key_state == KeyState::NotPressed
    }

    /// Whether the alt key alone is held down.
    pub fn is_alt(&self) -> (r: bool)
        ensures
            r == (*self == ModifierKeysMask::alt()),
    {
        self.ctrl_key_state == KeyState::NotPressed && self.alt_key_state == KeyState::Pressed
            && self.shift_key_state == KeyState::NotPressed
    }

    /// Whether the shift key alone is held down.
    pub fn is_shift(&self) -> (r: bool)
        ensures
            r == (*self == ModifierKeysMask::shift()),
    {
        self.ctrl_key_state == KeyState::NotPressed && self.alt_key_state == KeyState::NotPressed
            && self.shift_key_state == KeyState::Pressed
    }
}

} // verus!
