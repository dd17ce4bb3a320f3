//! The requests that a client may send, each as the payload of one frame.

use vstd::prelude::*;
use vstd::utf8::valid_utf8;
use crate::bytes::{append, copy_range, equal, has_prefix, starts_with};
use crate::listing::{dir_tag, dir_tag_bytes, file_tag, file_tag_bytes};
use crate::text::is_text;

verus! {

/// A request of the client.
#[derive(Debug)]
pub enum Command {
    /// `FILE_<path>`: send the bytes of a file.
    File(Vec<u8>),
    /// `DIR_<path>`: move to a directory and list it.
    Dir(Vec<u8>),
    /// `SAVEDIR_<path>`: send a directory as one archive.
    SaveDir(Vec<u8>),
    /// `FILEINFO_<path>`: say what kind of item a path names, and its size.
    FileInfo(Vec<u8>),
    /// `SHUTDOWN`: close the connection.
    Shutdown,
}

/// The model of a [`Command`].
pub enum CommandView {
    File(Seq<u8>),
    Dir(Seq<u8>),
    SaveDir(Seq<u8>),
    FileInfo(Seq<u8>),
    Shutdown,
}

impl View for Command {
    type V = CommandView;

    open spec fn view(&self) -> CommandView {
        match self {
            Command::File(p) => CommandView::File(p@),
            Command::Dir(p) => CommandView::Dir(p@),
            Command::SaveDir(p) => CommandView::SaveDir(p@),
            Command::FileInfo(p) => CommandView::FileInfo(p@),
            Command::Shutdown => CommandView::Shutdown,
        }
    }
}

/// The ASCII bytes of `SAVEDIR_`.
pub open spec fn savedir_tag() -> Seq<u8> {
    seq![83u8, 65u8, 86u8, 69u8, 68u8, 73u8, 82u8, 95u8]
}

/// The ASCII bytes of `FILEINFO_`.
pub open spec fn fileinfo_tag() -> Seq<u8> {
    seq![70u8, 73u8, 76u8, 69u8, 73u8, 78u8, 70u8, 79u8, 95u8]
}

/// The ASCII bytes of `SHUTDOWN`.
pub open spec fn shutdown_word() -> Seq<u8> {
    seq![83u8, 72u8, 85u8, 84u8, 68u8, 79u8, 87u8, 78u8]
}

/// The payload that carries a command.
pub open spec fn payload_of(command: CommandView) -> Seq<u8> {
    match command {
        CommandView::File(p) => file_tag() + p,
        CommandView::Dir(p) => dir_tag() + p,
        CommandView::SaveDir(p) => savedir_tag() + p,
        CommandView::FileInfo(p) => fileinfo_tag() + p,
        CommandView::Shutdown => shutdown_word(),
    }
}

/// The command that a payload carries. A payload that is not text, or that
/// is neither the shutdown word nor begins with one of the four tags,
/// carries none: it violates the protocol.
pub open spec fn command_of(payload: Seq<u8>) -> Option<CommandView> {
    if !valid_utf8(payload) {
        None
    } else if payload == shutdown_word() {
        Some(CommandView::Shutdown)
    } else if has_prefix(payload, file_tag()) {
        Some(CommandView::File(payload.subrange(5, payload.len() as int)))
    } else if has_prefix(payload, dir_tag()) {
        Some(CommandView::Dir(payload.subrange(4, payload.len() as int)))
    } else if has_prefix(payload, savedir_tag()) {
        Some(CommandView::SaveDir(payload.subrange(8, payload.len() as int)))
    } else if has_prefix(payload, fileinfo_tag()) {
        Some(CommandView::FileInfo(payload.subrange(9, payload.len() as int)))
    } else {
        None
    }
}

/// The bytes of `SAVEDIR_`.
pub fn savedir_tag_bytes() -> (out: Vec<u8>)
    ensures
        out@ == savedir_tag(),
{
    let out: Vec<u8> = vec![83, 65, 86, 69, 68, 73, 82, 95];
    proof {
        assert(out@ =~= savedir_tag());
    }
    out
}

/// The bytes of `FILEINFO_`.
pub fn fileinfo_tag_bytes() -> (out: Vec<u8>)
    ensures
        out@ == fileinfo_tag(),
{
    let out: Vec<u8> = vec![70, 73, 76, 69, 73, 78, 70, 79, 95];
    proof {
        assert(out@ =~= fileinfo_tag());
    }
    out
}

/// The bytes of `SHUTDOWN`.
pub fn shutdown_word_bytes() -> (out: Vec<u8>)
    ensures
        out@ == shutdown_word(),
{
    let out: Vec<u8> = vec![83, 72, 85, 84, 68, 79, 87, 78];
    proof {
        assert(out@ =~= shutdown_word());
    }
    out
}

impl Command {
    /// The payload that carries this command.
    pub fn encode(&self) -> (payload: Vec<u8>)
        ensures
            payload@ == payload_of(self@),
    {
        match self {
            Command::File(p) => {
                let mut out = file_tag_bytes();
                append(&mut out, p.as_slice());
                out
            },
            Command::Dir(p) => {
                let mut out = dir_tag_bytes();
                append(&mut out, p.as_slice());
                out
            },
            Command::SaveDir(p) => {
                let mut out = savedir_tag_bytes();
                append(&mut out, p.as_slice());
                out
            },
            Command::FileInfo(p) => {
                let mut out = fileinfo_tag_bytes();
                append(&mut out, p.as_slice());
                out
            },
            Command::Shutdown => shutdown_word_bytes(),
        }
    }

    /// Reads the payload of a request. `None` is a protocol violation.
    pub fn parse(payload: &[u8]) -> (command: Option<Command>)
        ensures
            match command {
                Some(c) => command_of(payload@) == Some(c@),
                None => command_of(payload@).is_none(),
            },
    {
        if !is_text(payload) {
            return None;
        }
        let n = payload.len();
        if equal(payload, shutdown_word_bytes().as_slice()) {
            Some(Command::Shutdown)
        } else if starts_with(payload, file_tag_bytes().as_slice()) {
            Some(Command::File(copy_range(payload, 5, n)))
        } else if starts_with(payload, dir_tag_bytes().as_slice()) {
            Some(Command::Dir(copy_range(payload, 4, n)))
        } else if starts_with(payload, savedir_tag_bytes().as_slice()) {
            Some(Command::SaveDir(copy_range(payload, 8, n)))
        } else if starts_with(payload, fileinfo_tag_bytes().as_slice()) {
            Some(Command::FileInfo(copy_range(payload, 9, n)))
        } else {
            None
        }
    }
}

/// Two byte strings with a different first byte share no prefix.
proof fn lemma_other_first_byte(s: Seq<u8>, tag: Seq<u8>)
    requires
        s.len() > 0,
        tag.len() > 0,
        s[0] != tag[0],
    ensures
        !has_prefix(s, tag),
{
    if has_prefix(s, tag) {
        assert(s.subrange(0, tag.len() as int)[0] == s[0]);
    }
}

/// A payload written for a command is read back as that command, as long
/// as it is text.
pub proof fn lemma_command_round_trip(command: CommandView)
    requires
        valid_utf8(payload_of(command)),
    ensures
        command_of(payload_of(command)) == Some(command),
{
    let payload = payload_of(command);
    match command {
        CommandView::File(p) => {
            assert(payload.subrange(0, 5) =~= file_tag());
            assert(payload.subrange(5, payload.len() as int) =~= p);
            if payload == shutdown_word() {
                assert(payload[0] == 70u8);
            }
        },
        CommandView::Dir(p) => {
            assert(payload.subrange(0, 4) =~= dir_tag());
            assert(payload.subrange(4, payload.len() as int) =~= p);
            assert(payload[0] == 68u8);
            lemma_other_first_byte(payload, file_tag());
        },
        CommandView::SaveDir(p) => {
            assert(payload.subrange(0, 8) =~= savedir_tag());
            assert(payload.subrange(8, payload.len() as int) =~= p);
            assert(payload[0] == 83u8);
            lemma_other_first_byte(payload, file_tag());
            lemma_other_first_byte(payload, dir_tag());
            if payload == shutdown_word() {
                assert(payload[1] == 65u8);
            }
        },
        CommandView::FileInfo(p) => {
            assert(payload.subrange(0, 9) =~= fileinfo_tag());
            assert(payload.subrange(9, payload.len() as int) =~= p);
            assert(payload[0] == 70u8);
            assert(payload[4] == 73u8);
            if has_prefix(payload, file_tag()) {
                assert(payload.subrange(0, 5)[4] == payload[4]);
            }
            lemma_other_first_byte(payload, dir_tag());
            lemma_other_first_byte(payload, savedir_tag());
        },
        CommandView::Shutdown => {},
    }
}

} // verus!
