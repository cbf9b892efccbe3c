//! From keys to commands.

use crate::snake::{advanced, move_snake, Snake};
use vstd::prelude::*;

verus! {

/// A key event: a character key, or any other key.
#[derive(Debug, Clone, Copy, PartialEq, Eq, Structural)]
pub enum Key {
    Char(char),
    Other,
}

/// What a key asks of the game.
#[derive(Debug, Clone, Copy, PartialEq, Eq, Structural)]
pub enum Command {
    Up,
    Down,
    Left,
    Right,
    Quit,
    Ignore,
}

/// The command bound to a key: `w`, `s`, `a`, `d` steer, `q` quits, in either
/// case of the letter. Every other key is ignored.
pub open spec fn command_of(key: Key) -> Command {
    match key {
        Key::Char(c) => if c == 'w' || c == 'W' {
            Command::Up
        } else if c == 's' || c == 'S' {
            Command::Down
        } else if c == 'a' || c == 'A' {
            Command::Left
        } else if c == 'd' || c == 'D' {
            Command::Right
        } else if c == 'q' || c == 'Q' {
            Command::Quit
        } else {
            Command::Ignore
        },
        Key::Other => Command::Ignore,
    }
}

impl Command {
    /// The step `(dx, dy)` that a steering command moves the head by; rows
    /// count downwards, so up is `-1` in `y`. Other commands have none.
    pub open spec fn step(self) -> Option<(int, int)> {
        match self {
            Command::Up => Some((0, -1)),
            Command::Down => Some((0, 1)),
            Command::Left => Some((-1, 0)),
            Command::Right => Some((1, 0)),
            Command::Quit => None,
            Command::Ignore => None,
        }
    }

    /// The step of a steering command, as numbers to move by.
    pub fn delta(self) -> (d: Option<(i32, i32)>)
        ensures
            match d {
                Some((dx, dy)) => self.step() == Some((dx as int, dy as int)),
                None => self.step().is_none(),
            },
    {
        match self {
            Command::Up => Some((0, -1)),
            Command::Down => Some((0, 1)),
            Command::Left => Some((-1, 0)),
            Command::Right => Some((1, 0)),
            Command::Quit => None,
            Command::Ignore => None,
        }
    }
}

/// Tells which command a key stands for.
pub fn read_key(key: Key) -> (command: Command)
    ensures
        command == command_of(key),
{
    match key {
        Key::Char('w') | Key::Char('W') => Command::Up,
        Key::Char('s') | Key::Char('S') => Command::Down,
        Key::Char('a') | Key::Char('A') => Command::Left,
        Key::Char('d') | Key::Char('D') => Command::Right,
        Key::Char('q') | Key::Char('Q') => Command::Quit,
        _ => Command::Ignore,
    }
}

/// Takes one key event and steers the snake by it: a steering key moves the
/// snake one step, any other key leaves it where it is. The command that the
/// key stands for is returned, so that the caller can end the round on
/// `Quit`, and can tell from `Ignore` that it should go on waiting for a key.
pub fn read_keyboard(key: Key, snake: &mut Snake) -> (command: Command)
    requires
        old(snake).wf(),
        command_of(key).step() matches Some((dx, dy)) ==> {
            &&& i32::MIN <= old(snake).head().x + dx <= i32::MAX
            &&& i32::MIN <= old(snake).head().y + dy <= i32::MAX
        },
    ensures
        command == command_of(key),
        final(snake).wf(),
        final(snake).len() == old(snake).len(),
        match command.step() {
            Some((dx, dy)) => final(snake).parts() == advanced(
                old(snake).parts(),
                old(snake).len() as nat,
                dx,
                dy,
            ),
            None => final(snake).parts() == old(snake).parts(),
        },
{
    let command = read_key(key);
    match command.delta() {
        Some((dx, dy)) => {
            move_snake(dx, dy, snake);
        },
        None => {},
    }
    command
}

} // verus!
