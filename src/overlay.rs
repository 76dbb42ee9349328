//! What each overlay window shows, and what its keys do.
use vstd::prelude::*;
use crate::selection::State;
use crate::text::{chars_of, decimal, push_decimal, string_of};

verus! {

/// The colours of the overlay palette.
#[derive(Clone, Copy, Debug, PartialEq, Eq, Structural)]
pub enum Color {
    Primary,
    Light,
    LightHovered,
    Dark,
    White,
    Black,
}

impl Color {
    /// The red, green and blue intensities of the colour.
    pub open spec fn spec_rgb(self) -> (u8, u8, u8) {
        match self {
            Color::Primary => (0xff, 0xd2, 0x00),
            Color::Light => (0x8a, 0x91, 0x99),
            Color::LightHovered => (0xbf, 0xc4, 0xca),
            Color::Dark => (0x33, 0x31, 0x32),
            Color::White => (0xff, 0xff, 0xff),
            Color::Black => (0x00, 0x00, 0x00),
        }
    }

    pub fn rgb(self) -> (r: (u8, u8, u8))
        ensures
            r == self.spec_rgb(),
    {
        match self {
            Color::Primary => (0xff, 0xd2, 0x00),
            Color::Light => (0x8a, 0x91, 0x99),
            Color::LightHovered => (0xbf, 0xc4, 0xca),
            Color::Dark => (0x33, 0x31, 0x32),
            Color::White => (0xff, 0xff, 0xff),
            Color::Black => (0x00, 0x00, 0x00),
        }
    }
}

/// The colours of one overlay window.
#[derive(Clone, Copy, Debug, PartialEq, Eq, Structural)]
pub struct WindowColors {
    /// The background of the whole window.
    pub background: Color,
    /// The background of the box that shows the monitor id.
    pub label_background: Color,
    /// The colour of the monitor id.
    pub label_text: Color,
}

/// The colours of an overlay window whose monitor is selected or not, and
/// hovered or not; each of the four cases has colours of its own.
pub open spec fn colors_of(selected: bool, hovered: bool) -> WindowColors {
    if selected {
        if hovered {
            WindowColors { background: Color::Primary, label_background: Color::White, label_text: Color::Dark }
        } else {
            WindowColors { background: Color::Primary, label_background: Color::Dark, label_text: Color::White }
        }
    } else {
        if hovered {
            WindowColors { background: Color::Dark, label_background: Color::LightHovered, label_text: Color::White }
        } else {
            WindowColors { background: Color::Black, label_background: Color::Light, label_text: Color::White }
        }
    }
}

pub fn window_colors(selected: bool, hovered: bool) -> (r: WindowColors)
    ensures
        r == colors_of(selected, hovered),
{
    if selected {
        if hovered {
            WindowColors { background: Color::Primary, label_background: Color::White, label_text: Color::Dark }
        } else {
            WindowColors { background: Color::Primary, label_background: Color::Dark, label_text: Color::White }
        }
    } else {
        if hovered {
            WindowColors { background: Color::Dark, label_background: Color::LightHovered, label_text: Color::White }
        } else {
            WindowColors { background: Color::Black, label_background: Color::Light, label_text: Color::White }
        }
    }
}

/// The colours of the overlay window of monitor `id` in the state `state`.
pub fn colors_for(state: &State, id: u32) -> (r: WindowColors)
    ensures
        r == colors_of(state@.selected.contains(id), state@.hovered == Some(id)),
{
    window_colors(state.is_selected(id), state.is_hovered(id))
}

/// The text of the overlay window of monitor `id`: its id, or a note that
/// the state holds no such monitor.
pub fn label(state: &State, id: u32) -> (r: String)
    ensures
        state@.knows(id) ==> r@ == decimal(id as nat),
        !state@.knows(id) ==> r@ == "error: monitor not found"@,
{
    match state.monitors().find(id) {
        Some(_) => {
            let mut digits: Vec<char> = Vec::new();
            push_decimal(&mut digits, id as u64);
            assert(digits@ =~= decimal(id as nat));
            string_of(&digits)
        },
        None => {
            let note = chars_of("error: monitor not found");
            string_of(&note)
        },
    }
}

/// The keys that overlay windows act on.
#[derive(Clone, Copy, Debug, PartialEq, Eq, Structural)]
pub enum Key {
    Enter,
    Escape,
    Backspace,
    Delete,
    Other,
}

/// What the application does on a key.
#[derive(Clone, Copy, Debug, PartialEq, Eq, Structural)]
pub enum Command {
    /// Start the session on the selected monitors, then quit.
    Launch,
    /// Quit without starting anything.
    Quit,
    /// Go on.
    Ignore,
}

/// Enter commits; Escape, Backspace and Delete cancel; other keys do nothing.
pub fn command_for(key: Key) -> (r: Command)
    ensures
        r == (match key {
            Key::Enter => Command::Launch,
            Key::Escape | Key::Backspace | Key::Delete => Command::Quit,
            Key::Other => Command::Ignore,
        }),
{
    match key {
        Key::Enter => Command::Launch,
        Key::Escape | Key::Backspace | Key::Delete => Command::Quit,
        Key::Other => Command::Ignore,
    }
}

} // verus!
