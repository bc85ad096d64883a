//! What the keys ask for.

use vstd::prelude::*;

verus! {

/// Which key was pressed.
#[derive(Clone, Copy, Debug, PartialEq, Eq, Structural)]
pub enum KeyCode {
    Char(char),
    Esc,
    Tab,
    BackTab,
    Up,
    Down,
    Left,
    Right,
    /// Any other key.
    Other,
}

/// A key, and whether control was held with it.
#[derive(Clone, Copy, Debug, PartialEq, Eq, Structural)]
pub struct Key {
    pub code: KeyCode,
    pub control: bool,
}

/// Something the terminal reports.
#[derive(Clone, Copy, Debug, PartialEq, Eq, Structural)]
pub enum Event {
    /// The terminal has another size.
    Resize,
    /// A key went down.
    Press(Key),
    /// A key came back up, or anything else.
    Other,
}

/// What a key asks of the panes.
#[derive(Clone, Copy, Debug, PartialEq, Eq, Structural)]
pub enum Command {
    Quit,
    HalfDown,
    HalfUp,
    Next,
    Previous,
    Right,
    Left,
    Cancel,
    Open,
    Focus,
    Scope,
    Refresh,
    Nothing,
}

/// What a key asks of the panes. Raw mode swallows SIGINT, so ctrl-c quits
/// like `q` does.
pub open spec fn command_of(key: Key) -> Command {
    match key.code {
        KeyCode::Esc => Command::Quit,
        KeyCode::Down => Command::Next,
        KeyCode::Up => Command::Previous,
        KeyCode::Right => Command::Right,
        KeyCode::Left => Command::Left,
        KeyCode::Tab => Command::Focus,
        KeyCode::BackTab => Command::Focus,
        KeyCode::Char(c) => if c == 'q' {
            Command::Quit
        } else if c == 'c' && key.control {
            Command::Quit
        } else if c == 'd' && key.control {
            Command::HalfDown
        } else if c == 'u' && key.control {
            Command::HalfUp
        } else if c == 'j' {
            Command::Next
        } else if c == 'k' {
            Command::Previous
        } else if c == 'l' {
            Command::Right
        } else if c == 'h' {
            Command::Left
        } else if c == 'd' {
            Command::Cancel
        } else if c == 'p' {
            Command::Open
        } else if c == 'm' {
            Command::Scope
        } else if c == 'r' {
            Command::Refresh
        } else {
            Command::Nothing
        },
        KeyCode::Other => Command::Nothing,
    }
}

/// What a key asks of the panes.
pub fn command(key: Key) -> (r: Command)
    ensures
        r == command_of(key),
{
    match key.code {
        KeyCode::Esc => Command::Quit,
        KeyCode::Down => Command::Next,
        KeyCode::Up => Command::Previous,
        KeyCode::Right => Command::Right,
        KeyCode::Left => Command::Left,
        KeyCode::Tab => Command::Focus,
        KeyCode::BackTab => Command::Focus,
        KeyCode::Char(c) => if c == 'q' {
            Command::Quit
        } else if c == 'c' && key.control {
            Command::Quit
        } else if c == 'd' && key.control {
            Command::HalfDown
        } else if c == 'u' && key.control {
            Command::HalfUp
        } else if c == 'j' {
            Command::Next
        } else if c == 'k' {
            Command::Previous
        } else if c == 'l' {
            Command::Right
        } else if c == 'h' {
            Command::Left
        } else if c == 'd' {
            Command::Cancel
        } else if c == 'p' {
            Command::Open
        } else if c == 'm' {
            Command::Scope
        } else if c == 'r' {
            Command::Refresh
        } else {
            Command::Nothing
        },
        KeyCode::Other => Command::Nothing,
    }
}

/// What a key asks of an open window.
#[derive(Clone, Copy, Debug, PartialEq, Eq, Structural)]
pub enum WindowCommand {
    Quit,
    Close,
    PageDown,
    PageUp,
    Down,
    Up,
    Follow,
    Nothing,
}

/// What a key asks of an open window. Movement is `j`/`k` and
/// `ctrl-d`/`ctrl-u`, the same as a pane, so there is one set to know.
pub open spec fn window_command_of(key: Key) -> WindowCommand {
    match key.code {
        KeyCode::Esc => WindowCommand::Close,
        KeyCode::Down => WindowCommand::Down,
        KeyCode::Up => WindowCommand::Up,
        KeyCode::Char(c) => if c == 'c' && key.control {
            WindowCommand::Quit
        } else if c == 'q' || c == 'p' {
            WindowCommand::Close
        } else if c == 'd' && key.control {
            WindowCommand::PageDown
        } else if c == 'u' && key.control {
            WindowCommand::PageUp
        } else if c == 'j' {
            WindowCommand::Down
        } else if c == 'k' {
            WindowCommand::Up
        } else if c == 'G' {
            WindowCommand::Follow
        } else {
            WindowCommand::Nothing
        },
        _ => WindowCommand::Nothing,
    }
}

/// What a key asks of an open window.
pub fn window_command(key: Key) -> (r: WindowCommand)
    ensures
        r == window_command_of(key),
{
    match key.code {
        KeyCode::Esc => WindowCommand::Close,
        KeyCode::Down => WindowCommand::Down,
        KeyCode::Up => WindowCommand::Up,
        KeyCode::Char(c) => if c == 'c' && key.control {
            WindowCommand::Quit
        } else if c == 'q' || c == 'p' {
            WindowCommand::Close
        } else if c == 'd' && key.control {
            WindowCommand::PageDown
        } else if c == 'u' && key.control {
            WindowCommand::PageUp
        } else if c == 'j' {
            WindowCommand::Down
        } else if c == 'k' {
            WindowCommand::Up
        } else if c == 'G' {
            WindowCommand::Follow
        } else {
            WindowCommand::Nothing
        },
        _ => WindowCommand::Nothing,
    }
}

/// A key pressed with control or without it.
pub open spec fn typed(c: char, control: bool) -> Key {
    Key { code: KeyCode::Char(c), control }
}

/// Each key for moving goes the way it points: `j` and the arrow down go to the
/// next row, `k` and the arrow up to the one before, `l` and the arrow to the
/// right show the columns to the right, and `h` and the arrow to the left those
/// to the left. With control, `d` and `u` go half a screen down and up.
pub proof fn lemma_keys_that_move(control: bool)
    ensures
        command_of(typed('j', control)) == Command::Next,
        command_of(Key { code: KeyCode::Down, control }) == Command::Next,
        command_of(typed('k', control)) == Command::Previous,
        command_of(Key { code: KeyCode::Up, control }) == Command::Previous,
        command_of(typed('l', control)) == Command::Right,
        command_of(Key { code: KeyCode::Right, control }) == Command::Right,
        command_of(typed('h', control)) == Command::Left,
        command_of(Key { code: KeyCode::Left, control }) == Command::Left,
        command_of(typed('d', true)) == Command::HalfDown,
        command_of(typed('u', true)) == Command::HalfUp,
{
}

/// `q`, escape and control with `c` quit; either tab changes the focus; `d`
/// without control cancels, `p` opens the log, `m` changes the scope and `r`
/// refreshes.
pub proof fn lemma_keys_that_act(control: bool)
    ensures
        command_of(typed('q', control)) == Command::Quit,
        command_of(Key { code: KeyCode::Esc, control }) == Command::Quit,
        command_of(typed('c', true)) == Command::Quit,
        command_of(Key { code: KeyCode::Tab, control }) == Command::Focus,
        command_of(Key { code: KeyCode::BackTab, control }) == Command::Focus,
        command_of(typed('d', false)) == Command::Cancel,
        command_of(typed('p', control)) == Command::Open,
        command_of(typed('m', control)) == Command::Scope,
        command_of(typed('r', control)) == Command::Refresh,
{
}

/// Only `d` cancels, and never with control held; only the keys that quit quit;
/// and no other key does anything.
pub proof fn lemma_other_keys_do_nothing(key: Key)
    ensures
        command_of(key) == Command::Cancel <==> key == typed('d', false),
        command_of(key) == Command::Quit <==> key.code == KeyCode::Esc || key.code
            == KeyCode::Char('q') || key == typed('c', true),
        key.code matches KeyCode::Char(c) && !seq!['q', 'd', 'j', 'k', 'l', 'h', 'p', 'm', 'r'].contains(
            c,
        ) && !(key.control && (c == 'c' || c == 'u')) ==> command_of(key) == Command::Nothing,
        key.code == KeyCode::Other ==> command_of(key) == Command::Nothing,
{
    let known = seq!['q', 'd', 'j', 'k', 'l', 'h', 'p', 'm', 'r'];
    assert(known[0] == 'q' && known[1] == 'd' && known[2] == 'j' && known[3] == 'k' && known[4]
        == 'l' && known[5] == 'h' && known[6] == 'p' && known[7] == 'm' && known[8] == 'r');
}

/// In an open window the keys that move go the same ways as in a pane, `G` goes
/// to the end, and what would open the window or leave the program closes it.
/// Control with `c` still quits.
pub proof fn lemma_keys_of_the_window(control: bool)
    ensures
        window_command_of(typed('j', control)) == WindowCommand::Down,
        window_command_of(Key { code: KeyCode::Down, control }) == WindowCommand::Down,
        window_command_of(typed('k', control)) == WindowCommand::Up,
        window_command_of(Key { code: KeyCode::Up, control }) == WindowCommand::Up,
        window_command_of(typed('d', true)) == WindowCommand::PageDown,
        window_command_of(typed('u', true)) == WindowCommand::PageUp,
        window_command_of(typed('G', control)) == WindowCommand::Follow,
        window_command_of(typed('p', control)) == WindowCommand::Close,
        window_command_of(typed('q', control)) == WindowCommand::Close,
        window_command_of(Key { code: KeyCode::Esc, control }) == WindowCommand::Close,
        window_command_of(typed('c', true)) == WindowCommand::Quit,
{
}

/// No other key does anything in an open window: not without control what only
/// control does, and nothing that the panes alone answer.
pub proof fn lemma_other_keys_do_nothing_in_the_window(key: Key)
    ensures
        key.code matches KeyCode::Char(c) && !seq!['j', 'k', 'G', 'p', 'q'].contains(c) && !(
        key.control && (c == 'c' || c == 'd' || c == 'u')) ==> window_command_of(key)
            == WindowCommand::Nothing,
        key.code == KeyCode::Tab || key.code == KeyCode::BackTab || key.code == KeyCode::Left
            || key.code == KeyCode::Right || key.code == KeyCode::Other ==> window_command_of(key)
            == WindowCommand::Nothing,
{
    let known = seq!['j', 'k', 'G', 'p', 'q'];
    assert(known[0] == 'j' && known[1] == 'k' && known[2] == 'G' && known[3] == 'p' && known[4]
        == 'q');
}

} // verus!
