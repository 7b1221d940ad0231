//! Events of the graphical user interface.
use vstd::prelude::*;

verus! {

#[derive(Clone, Copy, Debug, PartialEq, Eq, Structural)]
pub enum MouseBtn {
    Left,
    Right,
    Middle,
}

#[derive(Clone, Copy, Debug, PartialEq, Eq, Structural)]
pub enum Key {
    Char(char),
    Enter,
    Backspace,
    Escape,
    Tab,
    Left,
    Right,
    Up,
    Down,
    Home,
    End,
    PageUp,
    PageDown,
    Insert,
    Delete,
    F1,
    F2,
    F3,
    F4,
    F5,
    F6,
    F7,
    F8,
    F9,
    F10,
    F11,
    F12,
}

#[derive(Clone, Copy, Debug, PartialEq, Eq, Structural)]
pub struct Mods {
    pub shift: bool,
    pub ctrl: bool,
    pub alt: bool,
}

#[derive(Debug)]
pub enum GuiEvent {
    MouseDown { x: i32, y: i32, button: MouseBtn },
    MouseUp { x: i32, y: i32, button: MouseBtn },
    MouseMove { x: i32, y: i32, dx: i16, dy: i16 },
    KeyDown { key: Key, ch: Option<char>, mods: Mods },
    KeyUp { key: Key, mods: Mods },
    AppDraw { wid: u32, x: u16, y: u16, w: u16, h: u16, pixels: Vec<u32> },
    AppTitle { wid: u32, title: String },
    AppClose { wid: u32 },
}

} // verus!
