//! The file-browser's input actions: the four movements a key can mean.
//! The browser's directory walking and rendering live with the runtime
//! host; the key-to-action mapping is decided here.

use vstd::prelude::*;

verus! {

use crate::events::{Key, KeyInput};

/// One of the four movement actions available inside the file browser.
#[derive(Debug, Clone, Copy, PartialEq, Eq, Hash, Structural)]
pub enum Input {
    Up,
    Down,
    Left,
    Right,
    NoOp,
}

/// The action a key input stands for in the file browser.
pub open spec fn spec_input_of(k: KeyInput) -> Input {
    match k.code {
        Key::Char(c) => {
            if c == 'j' {
                Input::Down
            } else if c == 'k' {
                Input::Up
            } else if c == 'h' {
                Input::Left
            } else if c == 'l' {
                Input::Right
            } else {
                Input::NoOp
            }
        },
        Key::Down => Input::Down,
        Key::Up => Input::Up,
        Key::Left => Input::Left,
        Key::Backspace => Input::Left,
        Key::Right => Input::Right,
        Key::Enter => Input::Right,
        _ => Input::NoOp,
    }
}

impl Input {
    /// Map a pressed key to its browser action.
    pub fn from_key(k: KeyInput) -> (r: Input)
        ensures
            r == spec_input_of(k),
    {
        match k.code {
            Key::Char(c) => {
                if c == 'j' {
                    Input::Down
                } else if c == 'k' {
                    Input::Up
                } else if c == 'h' {
                    Input::Left
                } else if c == 'l' {
                    Input::Right
                } else {
                    Input::NoOp
                }
            },
            Key::Down => Input::Down,
            Key::Up => Input::Up,
            Key::Left => Input::Left,
            Key::Backspace => Input::Left,
            Key::Right => Input::Right,
            Key::Enter => Input::Right,
            _ => Input::NoOp,
        }
    }
}

} // verus!
