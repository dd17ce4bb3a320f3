//! What each key means in each mode of the client, and the editing of a
//! line of input.

use vstd::prelude::*;

verus! {

/// A key press, as far as the client tells keys apart.
#[derive(Clone, Copy, Debug, PartialEq, Eq, Structural)]
pub enum Key {
    Up,
    Down,
    Left,
    Right,
    Enter,
    Esc,
    Backspace,
    Char(char),
    Other,
}

/// What a key asks for while browsing.
#[derive(Clone, Copy, Debug, PartialEq, Eq, Structural)]
pub enum BrowseAction {
    /// Ask the server about the selected entry.
    Info,
    /// Save the selected entry.
    Save,
    /// Send the shutdown word and leave.
    Quit,
    MoveUp,
    MoveDown,
    /// Open the selected entry.
    Open,
    /// Go back along the trail.
    Back,
    Nothing,
}

/// What a key asks for while a file is on display.
#[derive(Clone, Copy, Debug, PartialEq, Eq, Structural)]
pub enum ViewAction {
    /// Jump to the line in the buffer.
    Jump,
    /// Return to browsing.
    Close,
    ScrollUp,
    ScrollDown,
    /// Save the text on display.
    Save,
    /// A digit for the jump buffer, as its ASCII byte.
    Digit(u8),
    Nothing,
}

/// What a key does to a line of input.
#[derive(Clone, Copy, Debug, PartialEq, Eq, Structural)]
pub enum InputStep {
    /// The line changed, or the key meant nothing: go on.
    Editing,
    /// The line is complete.
    Done,
}

/// What a key asks for while browsing: space asks about the entry, `s`
/// saves, `q` and Esc leave, the arrows and `k`, `j` move, Enter and the
/// right arrow open, the left arrow goes back.
pub open spec fn browse_action_of(key: Key) -> BrowseAction {
    match key {
        Key::Char(c) => if c == ' ' {
            BrowseAction::Info
        } else if c == 's' {
            BrowseAction::Save
        } else if c == 'q' {
            BrowseAction::Quit
        } else if c == 'k' {
            BrowseAction::MoveUp
        } else if c == 'j' {
            BrowseAction::MoveDown
        } else {
            BrowseAction::Nothing
        },
        Key::Esc => BrowseAction::Quit,
        Key::Up => BrowseAction::MoveUp,
        Key::Down => BrowseAction::MoveDown,
        Key::Enter => BrowseAction::Open,
        Key::Right => BrowseAction::Open,
        Key::Left => BrowseAction::Back,
        _ => BrowseAction::Nothing,
    }
}

/// What a key asks for while a file is on display: `g` jumps, `q`
/// closes, the arrows and `k`, `j` scroll, `s` saves, a decimal digit joins
/// the jump buffer.
pub open spec fn view_action_of(key: Key) -> ViewAction {
    match key {
        Key::Char(c) => if c == 'g' {
            ViewAction::Jump
        } else if c == 'q' {
            ViewAction::Close
        } else if c == 'k' {
            ViewAction::ScrollUp
        } else if c == 'j' {
            ViewAction::ScrollDown
        } else if c == 's' {
            ViewAction::Save
        } else if '0' <= c <= '9' {
            ViewAction::Digit(c as u8)
        } else {
            ViewAction::Nothing
        },
        Key::Up => ViewAction::ScrollUp,
        Key::Down => ViewAction::ScrollDown,
        _ => ViewAction::Nothing,
    }
}

/// The line of input after a key: `q` and Enter complete it as it stands,
/// Backspace removes its last character, any other character joins it.
pub open spec fn line_after(line: Seq<char>, key: Key) -> Seq<char> {
    match key {
        Key::Backspace => if line.len() > 0 {
            line.drop_last()
        } else {
            line
        },
        Key::Char(c) => if c == 'q' {
            line
        } else {
            line.push(c)
        },
        _ => line,
    }
}

/// Whether a key completes a line of input.
pub open spec fn completes_line(key: Key) -> bool {
    key == Key::Enter || key == Key::Char('q')
}

/// Decides what a key asks for while browsing.
pub fn browse_action(key: Key) -> (action: BrowseAction)
    ensures
        action == browse_action_of(key),
{
    match key {
        Key::Char(c) => {
            if c == ' ' {
                BrowseAction::Info
            } else if c == 's' {
                BrowseAction::Save
            } else if c == 'q' {
                BrowseAction::Quit
            } else if c == 'k' {
                BrowseAction::MoveUp
            } else if c == 'j' {
                BrowseAction::MoveDown
            } else {
                BrowseAction::Nothing
            }
        },
        Key::Esc => BrowseAction::Quit,
        Key::Up => BrowseAction::MoveUp,
        Key::Down => BrowseAction::MoveDown,
        Key::Enter | Key::Right => BrowseAction::Open,
        Key::Left => BrowseAction::Back,
        _ => BrowseAction::Nothing,
    }
}

/// Decides what a key asks for while a file is on display.
pub fn view_action(key: Key) -> (action: ViewAction)
    ensures
        action == view_action_of(key),
{
    match key {
        Key::Char(c) => {
            if c == 'g' {
                ViewAction::Jump
            } else if c == 'q' {
                ViewAction::Close
            } else if c == 'k' {
                ViewAction::ScrollUp
            } else if c == 'j' {
                ViewAction::ScrollDown
            } else if c == 's' {
                ViewAction::Save
            } else if '0' <= c && c <= '9' {
                ViewAction::Digit(c as u8)
            } else {
                ViewAction::Nothing
            }
        },
        Key::Up => ViewAction::ScrollUp,
        Key::Down => ViewAction::ScrollDown,
        _ => ViewAction::Nothing,
    }
}

/// Applies a key to a line of input.
pub fn edit_line(line: &mut Vec<char>, key: Key) -> (step: InputStep)
    ensures
        final(line)@ == line_after(old(line)@, key),
        step == (if completes_line(key) { InputStep::Done } else { InputStep::Editing }),
{
    match key {
        Key::Enter => InputStep::Done,
        Key::Backspace => {
            let _ = line.pop();
            InputStep::Editing
        },
        Key::Char(c) => {
            if c == 'q' {
                InputStep::Done
            } else {
                line.push(c);
                InputStep::Editing
            }
        },
        _ => InputStep::Editing,
    }
}

} // verus!
