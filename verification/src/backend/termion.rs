//! The rules of the termion backend: which event a key of the terminal
//! stands for, which color of the terminal a color of the theme is, and how
//! long the event loop waits for input.
//!
//! Reading keys and writing to the terminal is left to the caller; these
//! functions only decide.

use crate::event::{Event, Key};
use crate::theme::Color;
use termion::color::AnsiValue;
use vstd::prelude::*;

verus! {

/// A key as the terminal reports it.
#[derive(Clone, Copy, Debug, PartialEq, Eq, Structural, Hash)]
pub enum TermKey {
    /// Backspace.
    Backspace,
    /// Left arrow.
    Left,
    /// Right arrow.
    Right,
    /// Up arrow.
    Up,
    /// Down arrow.
    Down,
    /// Home key.
    Home,
    /// End key.
    End,
    /// Page Up key.
    PageUp,
    /// Page Down key.
    PageDown,
    /// Delete key.
    Delete,
    /// Insert key.
    Insert,
    /// Function key with its number.
    F(u8),
    /// Normal character.
    Char(char),
    /// Character with the Alt key pressed.
    Alt(char),
    /// Character with the Ctrl key pressed.
    Ctrl(char),
    /// Esc key.
    Esc,
    /// Any other key.
    Other,
}

/// A color as the terminal takes it.
#[derive(Clone, Copy, Debug, PartialEq, Eq, Structural, Hash)]
pub enum TermColor {
    /// A color of the palette of 256 colors, by its number.
    Ansi(u8),
    /// A true color: red, green and blue.
    Rgb(u8, u8, u8),
}

/// The event that a key of the terminal stands for.
pub open spec fn key_event(key: TermKey) -> Event {
    match key {
        TermKey::Esc => Event::Key(Key::Esc),
        TermKey::Backspace => Event::Key(Key::Backspace),
        TermKey::Left => Event::Key(Key::Left),
        TermKey::Right => Event::Key(Key::Right),
        TermKey::Up => Event::Key(Key::Up),
        TermKey::Down => Event::Key(Key::Down),
        TermKey::Home => Event::Key(Key::Home),
        TermKey::End => Event::Key(Key::End),
        TermKey::PageUp => Event::Key(Key::PageUp),
        TermKey::PageDown => Event::Key(Key::PageDown),
        TermKey::Delete => Event::Key(Key::Del),
        TermKey::Insert => Event::Key(Key::Ins),
        TermKey::F(n) => if n < 12 {
            Event::Key(Key::function_key(n))
        } else {
            Event::Unknown((-(n as int)) as i32)
        },
        TermKey::Char(c) => if c == '\n' {
            Event::Key(Key::Enter)
        } else if c == '\t' {
            Event::Key(Key::Tab)
        } else {
            Event::Char(c)
        },
        TermKey::Ctrl(c) => if c == 'c' {
            Event::Exit
        } else {
            Event::CtrlChar(c)
        },
        TermKey::Alt(c) => Event::AltChar(c),
        TermKey::Other => Event::Unknown(-1i32),
    }
}

/// Turns a key of the terminal into an event.
///
/// Keys with a name give the key of that name, and the function keys below
/// F12 give their function key; a function key from F12 on gives `Unknown`
/// with the negated number. Line feed and tabulator are the Enter and Tab
/// keys, Ctrl-c asks to leave, and a key without a name gives
/// `Unknown(-1)`.
pub fn map_key(key: TermKey) -> (event: Event)
    ensures
        event == key_event(key),
{
    match key {
        TermKey::Esc => Event::Key(Key::Esc),
        TermKey::Backspace => Event::Key(Key::Backspace),
        TermKey::Left => Event::Key(Key::Left),
        TermKey::Right => Event::Key(Key::Right),
        TermKey::Up => Event::Key(Key::Up),
        TermKey::Down => Event::Key(Key::Down),
        TermKey::Home => Event::Key(Key::Home),
        TermKey::End => Event::Key(Key::End),
        TermKey::PageUp => Event::Key(Key::PageUp),
        TermKey::PageDown => Event::Key(Key::PageDown),
        TermKey::Delete => Event::Key(Key::Del),
        TermKey::Insert => Event::Key(Key::Ins),
        TermKey::F(i) => {
            if i < 12 {
                Event::Key(Key::from_f(i))
            } else {
                Event::Unknown(-(i as i32))
            }
        },
        TermKey::Char(c) => {
            if c == '\n' {
                Event::Key(Key::Enter)
            } else if c == '\t' {
                Event::Key(Key::Tab)
            } else {
                Event::Char(c)
            }
        },
        TermKey::Ctrl(c) => {
            if c == 'c' {
                Event::Exit
            } else {
                Event::CtrlChar(c)
            }
        },
        TermKey::Alt(c) => Event::AltChar(c),
        TermKey::Other => Event::Unknown(-1),
    }
}

/// Calls `AnsiValue::rgb` of termion and hands out the number that the value
/// holds: that of the color with the given red, green and blue in the cube
/// of 216 colors of the palette. Each of the three has to be 5 at most.
#[verifier::external_body]
fn ansi_rgb(r: u8, g: u8, b: u8) -> (number: u8)
    requires
        r <= 5,
        g <= 5,
        b <= 5,
    ensures
        number == 16 + 36 * r + 6 * g + b,
{
    AnsiValue::rgb(r, g, b).0
}

/// Whether the terminal has a color for `color`: a color of low resolution
/// has to keep red, green and blue at 5 or below.
pub open spec fn is_drawable(color: Color) -> bool {
    match color {
        Color::RgbLowRes(r, g, b) => r <= 5 && g <= 5 && b <= 5,
        _ => true,
    }
}

/// The color of the terminal that stands for a color of the theme.
pub open spec fn term_color(color: Color) -> TermColor {
    match color {
        Color::Dark(base) => TermColor::Ansi(base.index()),
        Color::Light(base) => TermColor::Ansi((8 + base.index()) as u8),
        Color::Rgb(r, g, b) => TermColor::Rgb(r, g, b),
        Color::RgbLowRes(r, g, b) => TermColor::Ansi((16 + 36 * r + 6 * g + b) as u8),
    }
}

/// Turns a color of the theme into the color that the terminal takes.
///
/// The base colors are the first 8 colors of the palette and their light
/// versions the 8 behind them. A color of low resolution is found in the
/// cube of 216 colors that follows.
pub fn colour_to_termion_colour(clr: &Color) -> (color: TermColor)
    requires
        is_drawable(*clr),
    ensures
        color == term_color(*clr),
{
    match *clr {
        Color::Dark(base) => TermColor::Ansi(base.palette_index()),
        Color::Light(base) => TermColor::Ansi(8 + base.palette_index()),
        Color::Rgb(r, g, b) => TermColor::Rgb(r, g, b),
        Color::RgbLowRes(r, g, b) => TermColor::Ansi(ansi_rgb(r, g, b)),
    }
}

/// The time in milliseconds that the event loop waits for input before it
/// draws again, for a rate of `fps` frames in a second.
pub fn refresh_interval(fps: u32) -> (millis: u64)
    requires
        fps > 0,
    ensures
        millis == 1000int / (fps as int),
{
    1000 / (fps as u64)
}

} // verus!
