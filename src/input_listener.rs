use vstd::prelude::*;
use crate::app::Difficulty;

verus! {

/// A direction the cursor can move in.
#[derive(Clone, Copy, Debug, PartialEq, Eq, Structural)]
pub enum Direction {
    Up,
    Down,
    Left,
    Right,
}

/// A key of the keyboard, as far as the game tells keys apart.
#[derive(Clone, Copy, Debug, PartialEq, Eq, Structural)]
pub enum Key {
    Char(char),
    Enter,
    Other,
}

/// A key press; `plain` holds when no modifier key was down.
#[derive(Clone, Copy, Debug, PartialEq, Eq, Structural)]
pub struct KeyPress {
    pub key: Key,
    pub plain: bool,
}

/// An event handed from the input source to the game.
#[derive(Clone, Copy, Debug, PartialEq, Eq, Structural)]
pub enum InputEvent {
    Input(KeyPress),
    Navigation(Direction),
    GameDifficulty(Difficulty),
    Select,
    Flag,
    Tick,
    Quit,
}

/// What the input thread sends for a key press: a plain 'q' quits, a plain
/// 'f' flags, and any other key is passed on as it is.
pub open spec fn key_event_of(press: KeyPress) -> InputEvent {
    if press.plain && press.key == Key::Char('q') {
        InputEvent::Quit
    } else if press.plain && press.key == Key::Char('f') {
        InputEvent::Flag
    } else {
        InputEvent::Input(press)
    }
}

/// The game action bound to a key press: w, a, s, d move the cursor; e, m, h
/// choose a difficulty; Enter selects. Other keys stay plain input.
pub open spec fn key_action_of(press: KeyPress) -> InputEvent {
    if !press.plain {
        InputEvent::Input(press)
    } else {
        match press.key {
            Key::Char('d') => InputEvent::Navigation(Direction::Right),
            Key::Char('a') => InputEvent::Navigation(Direction::Left),
            Key::Char('w') => InputEvent::Navigation(Direction::Up),
            Key::Char('s') => InputEvent::Navigation(Direction::Down),
            Key::Char('e') => InputEvent::GameDifficulty(Difficulty::Easy),
            Key::Char('m') => InputEvent::GameDifficulty(Difficulty::Medium),
            Key::Char('h') => InputEvent::GameDifficulty(Difficulty::Hard),
            Key::Enter => InputEvent::Select,
            _ => InputEvent::Input(press),
        }
    }
}

/// The event the game handles for what the input channel gave: nothing
/// within the wait is a tick, key presses become their action, flag and quit
/// pass through, and anything else is a tick.
pub open spec fn received_event_of(received: Option<InputEvent>) -> InputEvent {
    match received {
        None => InputEvent::Tick,
        Some(InputEvent::Input(press)) => key_action_of(press),
        Some(InputEvent::Flag) => InputEvent::Flag,
        Some(InputEvent::Quit) => InputEvent::Quit,
        Some(_) => InputEvent::Tick,
    }
}

/// Turns a key press read from the terminal into the event to send.
pub fn key_event(press: KeyPress) -> (r: InputEvent)
    ensures
        r == key_event_of(press),
{
    if press.plain {
        match press.key {
            Key::Char('q') => {
                return InputEvent::Quit;
            },
            Key::Char('f') => {
                return InputEvent::Flag;
            },
            _ => {},
        }
    }
    InputEvent::Input(press)
}

/// Turns a key press into the game action bound to it.
pub fn key_action(press: KeyPress) -> (r: InputEvent)
    ensures
        r == key_action_of(press),
{
    if !press.plain {
        return InputEvent::Input(press);
    }
    match press.key {
        Key::Char('d') => InputEvent::Navigation(Direction::Right),
        Key::Char('a') => InputEvent::Navigation(Direction::Left),
        Key::Char('w') => InputEvent::Navigation(Direction::Up),
        Key::Char('s') => InputEvent::Navigation(Direction::Down),
        Key::Char('e') => InputEvent::GameDifficulty(Difficulty::Easy),
        Key::Char('m') => InputEvent::GameDifficulty(Difficulty::Medium),
        Key::Char('h') => InputEvent::GameDifficulty(Difficulty::Hard),
        Key::Enter => InputEvent::Select,
        _ => InputEvent::Input(press),
    }
}

/// Turns what the input channel gave (`None` when the wait ran out) into
/// the event the game handles.
pub fn received_event(received: Option<InputEvent>) -> (r: InputEvent)
    ensures
        r == received_event_of(received),
{
    match received {
        None => InputEvent::Tick,
        Some(InputEvent::Input(press)) => key_action(press),
        Some(InputEvent::Flag) => InputEvent::Flag,
        Some(InputEvent::Quit) => InputEvent::Quit,
        Some(_) => InputEvent::Tick,
    }
}

} // verus!
