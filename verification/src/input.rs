//! The keys of a player, and what each of them asks for.

use vstd::prelude::*;
use crate::net::{Signal, SnakeEventType};
use crate::scene::RenderOptions;
use crate::snake::Direction;

verus! {

/// A key that the player has pressed.
#[derive(Debug, Clone, Copy, PartialEq, Eq, Structural)]
pub enum Key {
    Char(char),
    Enter,
    Esc,
    Other,
}

/// What a key asks for.
#[derive(Debug, Clone, Copy, PartialEq, Eq, Structural)]
pub enum KeyAction {
    /// Send this event to the simulation.
    Send(SnakeEventType),
    /// Send a disconnect to the simulation and leave the game.
    Leave,
    ToggleUnicode,
    ToggleRgb,
    ToggleFancy,
    ToggleDebug,
    Nothing,
}

/// The event that the character of a key stands for: `w`, `a`, `s` and `d`
/// steer, `q` disconnects and `r` connects.
pub open spec fn event_of(c: char) -> Option<SnakeEventType> {
    if c == 'w' {
        Some(SnakeEventType::Movement(Direction::Up))
    } else if c == 'a' {
        Some(SnakeEventType::Movement(Direction::Left))
    } else if c == 's' {
        Some(SnakeEventType::Movement(Direction::Down))
    } else if c == 'd' {
        Some(SnakeEventType::Movement(Direction::Right))
    } else if c == 'q' {
        Some(SnakeEventType::Signal(Signal::Disconnect))
    } else if c == 'r' {
        Some(SnakeEventType::Signal(Signal::Connect))
    } else {
        None
    }
}

/// What a key asks for. A character that stands for an event sends it;
/// `u`, `c`, `f` and `\` switch an option of the picture; the enter key
/// stops the snake; the escape key leaves the game.
pub open spec fn action_of(key: Key) -> KeyAction {
    match key {
        Key::Char(c) => match event_of(c) {
            Some(event) => KeyAction::Send(event),
            None => if c == 'u' {
                KeyAction::ToggleUnicode
            } else if c == 'c' {
                KeyAction::ToggleRgb
            } else if c == 'f' {
                KeyAction::ToggleFancy
            } else if c == '\\' {
                KeyAction::ToggleDebug
            } else {
                KeyAction::Nothing
            },
        },
        Key::Enter => KeyAction::Send(SnakeEventType::Movement(Direction::Stop)),
        Key::Esc => KeyAction::Leave,
        Key::Other => KeyAction::Nothing,
    }
}

/// The options of the picture after a key has asked for `action`.
pub open spec fn switched(options: RenderOptions, action: KeyAction) -> RenderOptions {
    match action {
        KeyAction::ToggleUnicode => RenderOptions { unicode: !options.unicode, ..options },
        KeyAction::ToggleRgb => RenderOptions { rgb: !options.rgb, ..options },
        KeyAction::ToggleFancy => RenderOptions { fancy: !options.fancy, ..options },
        KeyAction::ToggleDebug => RenderOptions { debug: !options.debug, ..options },
        _ => options,
    }
}

/// The event that the character of a key stands for, if any.
pub fn event_for_key(c: char) -> (r: Option<SnakeEventType>)
    ensures
        r == event_of(c),
{
    if c == 'w' {
        Some(SnakeEventType::Movement(Direction::Up))
    } else if c == 'a' {
        Some(SnakeEventType::Movement(Direction::Left))
    } else if c == 's' {
        Some(SnakeEventType::Movement(Direction::Down))
    } else if c == 'd' {
        Some(SnakeEventType::Movement(Direction::Right))
    } else if c == 'q' {
        Some(SnakeEventType::Signal(Signal::Disconnect))
    } else if c == 'r' {
        Some(SnakeEventType::Signal(Signal::Connect))
    } else {
        None
    }
}

/// What the key asks for.
pub fn action_for_key(key: Key) -> (r: KeyAction)
    ensures
        r == action_of(key),
{
    match key {
        Key::Char(c) => match event_for_key(c) {
            Some(event) => KeyAction::Send(event),
            None => if c == 'u' {
                KeyAction::ToggleUnicode
            } else if c == 'c' {
                KeyAction::ToggleRgb
            } else if c == 'f' {
                KeyAction::ToggleFancy
            } else if c == '\\' {
                KeyAction::ToggleDebug
            } else {
                KeyAction::Nothing
            },
        },
        Key::Enter => KeyAction::Send(SnakeEventType::Movement(Direction::Stop)),
        Key::Esc => KeyAction::Leave,
        Key::Other => KeyAction::Nothing,
    }
}

/// Switches the option that `action` names, if it names one.
pub fn switch(options: RenderOptions, action: KeyAction) -> (r: RenderOptions)
    ensures
        r == switched(options, action),
{
    match action {
        KeyAction::ToggleUnicode => RenderOptions {
            fancy: options.fancy,
            unicode: !options.unicode,
            debug: options.debug,
            rgb: options.rgb,
        },
        KeyAction::ToggleRgb => RenderOptions {
            fancy: options.fancy,
            unicode: options.unicode,
            debug: options.debug,
            rgb: !options.rgb,
        },
        KeyAction::ToggleFancy => RenderOptions {
            fancy: !options.fancy,
            unicode: options.unicode,
            debug: options.debug,
            rgb: options.rgb,
        },
        KeyAction::ToggleDebug => RenderOptions {
            fancy: options.fancy,
            unicode: options.unicode,
            debug: !options.debug,
            rgb: options.rgb,
        },
        _ => options,
    }
}

} // verus!
