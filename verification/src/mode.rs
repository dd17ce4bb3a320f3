//! The modes of the client and the moves between them.
//!
//! The client is in one mode at a time. What happens inside a mode is
//! decided elsewhere; this module only says which mode follows.

use vstd::prelude::*;
use crate::save::SaveStep;

verus! {

/// What a path is being asked for.
#[derive(Clone, Copy, Debug, PartialEq, Eq, Structural)]
pub enum Purpose {
    /// To save the selected file.
    File,
    /// To save the selected directory.
    Directory,
    /// To save the text on display.
    Text,
}

/// The mode of the client.
#[derive(Clone, Copy, Debug, PartialEq, Eq, Structural)]
pub enum Mode {
    /// The listing is on display.
    Browsing,
    /// The text of a file is on display.
    ViewingFile,
    /// The user is typing a destination.
    AwaitingInput(Purpose),
    /// The user is asked whether to replace what is at the destination.
    ConfirmingOverwrite,
}

/// What happened in a mode.
#[derive(Clone, Copy, Debug, PartialEq, Eq, Structural)]
pub enum Event {
    /// Nothing that leads out of the mode.
    Stayed,
    /// The text of a file arrived.
    FileShown,
    /// The user asked to save; `directory` says whether the selected entry
    /// is a directory.
    SaveAsked { directory: bool },
    /// The user closed the file view.
    Closed,
    /// The destination was judged, or the question was answered.
    Judged(SaveStep),
    /// The user asked to leave.
    Quit,
}

/// The mode that follows; `None` where the client ends.
pub open spec fn mode_after(mode: Mode, event: Event) -> Option<Mode> {
    match (mode, event) {
        (Mode::Browsing, Event::Quit) => None,
        (Mode::Browsing, Event::FileShown) => Some(Mode::ViewingFile),
        (Mode::Browsing, Event::SaveAsked { directory }) => Some(
            Mode::AwaitingInput(
                if directory {
                    Purpose::Directory
                } else {
                    Purpose::File
                },
            ),
        ),
        (Mode::ViewingFile, Event::Closed) => Some(Mode::Browsing),
        (Mode::ViewingFile, Event::SaveAsked { directory }) => Some(Mode::AwaitingInput(Purpose::Text)),
        (Mode::AwaitingInput(purpose), Event::Judged(step)) => if purpose == Purpose::Directory && step
            == SaveStep::Confirm {
            Some(Mode::ConfirmingOverwrite)
        } else if purpose == Purpose::Text && step == SaveStep::Fetch {
            Some(Mode::ViewingFile)
        } else {
            Some(Mode::Browsing)
        },
        (Mode::ConfirmingOverwrite, Event::Judged(step)) => Some(Mode::Browsing),
        _ => Some(mode),
    }
}

/// Decides which mode follows. Browsing leads to the file view when a text
/// arrives and to the input of a destination when a save is asked for.
/// The file view leads back to browsing when closed. A destination for a
/// directory that is in use leads to the question; a destination accepted
/// for the text on display leads back to the file view; every other
/// judgement, and every answer to the question, leads back to browsing.
pub fn next_mode(mode: Mode, event: Event) -> (next: Option<Mode>)
    ensures
        next == mode_after(mode, event),
{
    match mode {
        Mode::Browsing => match event {
            Event::Quit => None,
            Event::FileShown => Some(Mode::ViewingFile),
            Event::SaveAsked { directory } => {
                if directory {
                    Some(Mode::AwaitingInput(Purpose::Directory))
                } else {
                    Some(Mode::AwaitingInput(Purpose::File))
                }
            },
            _ => Some(mode),
        },
        Mode::ViewingFile => match event {
            Event::Closed => Some(Mode::Browsing),
            Event::SaveAsked { directory: _ } => Some(Mode::AwaitingInput(Purpose::Text)),
            _ => Some(mode),
        },
        Mode::AwaitingInput(purpose) => match event {
            Event::Judged(step) => match (purpose, step) {
                (Purpose::Directory, SaveStep::Confirm) => Some(Mode::ConfirmingOverwrite),
                (Purpose::Text, SaveStep::Fetch) => Some(Mode::ViewingFile),
                _ => Some(Mode::Browsing),
            },
            _ => Some(mode),
        },
        Mode::ConfirmingOverwrite => match event {
            Event::Judged(_) => Some(Mode::Browsing),
            _ => Some(mode),
        },
    }
}

/// The question whether to overwrite is only ever reached from the input
/// of a destination for a directory, and only browsing follows it.
pub proof fn lemma_question_stands_between_input_and_browsing(mode: Mode, event: Event)
    ensures
        mode != Mode::ConfirmingOverwrite && mode_after(mode, event) == Some(Mode::ConfirmingOverwrite)
            ==> mode == Mode::AwaitingInput(Purpose::Directory) && event == Event::Judged(SaveStep::Confirm),
        mode == Mode::ConfirmingOverwrite ==> mode_after(mode, event) == Some(Mode::Browsing)
            || mode_after(mode, event) == Some(Mode::ConfirmingOverwrite),
{
}

} // verus!
