//! The server's side of one connection: a cursor into the filesystem, the
//! work that each request asks for, and the reply that each result is sent as.
//!
//! Nothing here touches a disk or a socket. The caller reads a request,
//! asks [`Session::plan`] what to do, does it, and sends the reply that the
//! matching function builds.

use vstd::prelude::*;
use vstd::utf8::{encode_utf8, valid_utf8};
use crate::bytes::{append, contains, equal, occurs_in};
use crate::command::{command_of, Command, CommandView};
use crate::frame::{
    binary_marker, binary_marker_bytes, decimal, decode_file_reply, decode_frame, frame,
    lemma_decimal_is_digits, lemma_first_index_unique, lemma_frame_round_trip, push_decimal,
    write_frame, FileReplyView, FrameError, SEPARATOR,
};
use crate::listing::{dot_dot, join, list_directory, listing_of, listing_payload, Entry};
use crate::text::is_text;

verus! {

/// Why a session ends.
#[derive(Clone, Copy, Debug, PartialEq, Eq, Structural)]
pub enum CloseReason {
    /// The client asked for it.
    Shutdown,
    /// The request was no command.
    Violation,
}

/// What the server has to do for a request before it can reply.
#[derive(Debug)]
pub enum Work {
    /// Read the file at this path and send [`file_reply`] of its bytes.
    ReadFile(Vec<u8>),
    /// Resolve this path to its canonical form, list that directory, and
    /// send what [`Session::enter`] returns.
    ChangeDir(Vec<u8>),
    /// Pack the directory at this path and send [`archive_reply`] of the archive.
    Pack(Vec<u8>),
    /// Look up the item at this path and send [`info_reply`].
    Stat(Vec<u8>),
    /// Close the transport without writing anything more.
    Close(CloseReason),
}

/// The model of a [`Work`].
pub enum WorkView {
    ReadFile(Seq<u8>),
    ChangeDir(Seq<u8>),
    Pack(Seq<u8>),
    Stat(Seq<u8>),
    Close(CloseReason),
}

impl View for Work {
    type V = WorkView;

    open spec fn view(&self) -> WorkView {
        match self {
            Work::ReadFile(p) => WorkView::ReadFile(p@),
            Work::ChangeDir(p) => WorkView::ChangeDir(p@),
            Work::Pack(p) => WorkView::Pack(p@),
            Work::Stat(p) => WorkView::Stat(p@),
            Work::Close(reason) => WorkView::Close(*reason),
        }
    }
}

/// The path of the parent of `cursor`, before it is resolved: `cursor`
/// with `..` as one more component.
pub open spec fn parent_target(cursor: Seq<u8>) -> Seq<u8> {
    if cursor.len() == 0 || cursor.last() == 47u8 {
        cursor + dot_dot()
    } else {
        cursor + seq![47u8] + dot_dot()
    }
}

/// The work that a request asks for while the session stands at `cursor`.
pub open spec fn work_for(cursor: Seq<u8>, payload: Seq<u8>) -> WorkView {
    match command_of(payload) {
        None => WorkView::Close(CloseReason::Violation),
        Some(CommandView::Shutdown) => WorkView::Close(CloseReason::Shutdown),
        Some(CommandView::File(p)) => WorkView::ReadFile(p),
        Some(CommandView::Dir(p)) => if p == dot_dot() {
            WorkView::ChangeDir(parent_target(cursor))
        } else {
            WorkView::ChangeDir(p)
        },
        Some(CommandView::SaveDir(p)) => WorkView::Pack(p),
        Some(CommandView::FileInfo(p)) => WorkView::Stat(p),
    }
}

/// The reply to a file request: the frame of the content if it is text,
/// else the binary marker and the separator, with no length and no payload.
pub open spec fn file_reply_of(content: Seq<u8>) -> Seq<u8> {
    if valid_utf8(content) {
        frame(content)
    } else {
        binary_marker() + seq![SEPARATOR]
    }
}

/// The payload of the reply to an info request: `1` for a regular file or
/// `0` for anything else, the separator, and the size in decimal.
pub open spec fn info_payload(is_file: bool, size: u64) -> Seq<u8> {
    seq![if is_file { 49u8 } else { 48u8 }, SEPARATOR] + decimal(size as nat)
}

/// The frame that carries the listing of a directory.
pub open spec fn listing_reply_of(has_parent: bool, children: Seq<Entry>) -> Seq<u8> {
    frame(join(listing_of(has_parent, children), seq![SEPARATOR]))
}

/// One connection's place in the filesystem.
pub struct Session {
    cursor: Vec<u8>,
}

impl Session {
    /// The directory at which the session stands.
    pub closed spec fn place(&self) -> Seq<u8> {
        self.cursor@
    }

    /// A session that stands at `root`, the canonical path of the
    /// directory that the server serves.
    pub fn new(root: Vec<u8>) -> (session: Session)
        ensures
            session.place() == root@,
    {
        Session { cursor: root }
    }

    /// The directory at which the session stands.
    pub fn cursor(&self) -> (cursor: &Vec<u8>)
        ensures
            cursor@ == self.place(),
    {
        &self.cursor
    }

    /// Decides what a request asks for. The session itself does not change:
    /// the cursor moves only once the directory was resolved, in [`Session::enter`].
    pub fn plan(&self, payload: &[u8]) -> (work: Work)
        ensures
            work@ == work_for(self.place(), payload@),
    {
        match Command::parse(payload) {
            None => Work::Close(CloseReason::Violation),
            Some(Command::Shutdown) => Work::Close(CloseReason::Shutdown),
            Some(Command::File(p)) => Work::ReadFile(p),
            Some(Command::Dir(p)) => {
                let up: Vec<u8> = vec![46, 46];
                proof {
                    assert(up@ =~= dot_dot());
                }
                if equal(p.as_slice(), up.as_slice()) {
                    let mut target: Vec<u8> = Vec::new();
                    append(&mut target, self.cursor.as_slice());
                    let n = self.cursor.len();
                    if n > 0 && self.cursor[n - 1] != 47 {
                        target.push(47);
                    }
                    append(&mut target, up.as_slice());
                    proof {
                        assert(target@ =~= parent_target(self.cursor@));
                    }
                    Work::ChangeDir(target)
                } else {
                    Work::ChangeDir(p)
                }
            },
            Some(Command::SaveDir(p)) => Work::Pack(p),
            Some(Command::FileInfo(p)) => Work::Stat(p),
        }
    }

    /// Moves the cursor to a directory that was resolved and listed, and
    /// builds the reply: the frame of its listing.
    pub fn enter(&mut self, canonical: Vec<u8>, has_parent: bool, children: &Vec<Entry>) -> (reply: Vec<u8>)
        ensures
            final(self).place() == canonical@,
            reply@ == listing_reply_of(has_parent, children@),
    {
        self.cursor = canonical;
        listing_reply(has_parent, children)
    }
}

/// The frame that carries the listing of a directory. It is what a client
/// receives on connecting, and after each change of directory.
pub fn listing_reply(has_parent: bool, children: &Vec<Entry>) -> (reply: Vec<u8>)
    ensures
        reply@ == listing_reply_of(has_parent, children@),
{
    let rows = list_directory(has_parent, children);
    let payload = listing_payload(&rows);
    write_frame(payload.as_slice())
}

/// The reply to a file request, from the bytes of the file.
pub fn file_reply(content: &[u8]) -> (reply: Vec<u8>)
    ensures
        reply@ == file_reply_of(content@),
{
    if is_text(content) {
        write_frame(content)
    } else {
        let mut reply = binary_marker_bytes();
        reply.push(SEPARATOR);
        proof {
            assert(reply@ =~= binary_marker() + seq![SEPARATOR]);
        }
        reply
    }
}

/// The reply to a request for a directory: the archive as one frame.
pub fn archive_reply(archive: &[u8]) -> (reply: Vec<u8>)
    ensures
        reply@ == frame(archive@),
{
    write_frame(archive)
}

/// The reply to an info request.
pub fn info_reply(is_file: bool, size: u64) -> (reply: Vec<u8>)
    ensures
        reply@ == frame(info_payload(is_file, size)),
{
    let mut payload: Vec<u8> = Vec::new();
    if is_file {
        payload.push(49);
    } else {
        payload.push(48);
    }
    payload.push(SEPARATOR);
    push_decimal(size, &mut payload);
    proof {
        assert(payload@ =~= info_payload(is_file, size));
    }
    write_frame(payload.as_slice())
}

/// The words by which the transport reports that the peer went away
/// without closing the connection.
pub const UNCLEAN_CLOSE: &'static str = "peer closed connection without sending TLS close_notify";

/// Whether the message of a transport error reports that the peer went
/// away without closing the connection. Such an end is expected of a
/// client that failed, and is told apart from other errors.
pub fn is_unclean_close(message: &str) -> (yes: bool)
    ensures
        yes == occurs_in(encode_utf8(UNCLEAN_CLOSE@), encode_utf8(message@)),
{
    contains(message.as_bytes(), UNCLEAN_CLOSE.as_bytes())
}

/// A file that is text arrives as its bytes; a file that is not arrives as
/// the binary marker, which no reader of plain frames accepts as a frame.
pub proof fn lemma_file_reply_tells_text_from_binary(content: Seq<u8>)
    requires
        content.len() <= usize::MAX,
    ensures
        valid_utf8(content) ==> decode_file_reply(file_reply_of(content)) == Ok::<
            (FileReplyView, int),
            FrameError,
        >((FileReplyView::Content(content), frame(content).len() as int)),
        !valid_utf8(content) ==> decode_file_reply(file_reply_of(content)) == Ok::<
            (FileReplyView, int),
            FrameError,
        >((FileReplyView::Binary, 13)),
        !valid_utf8(content) ==> decode_frame(file_reply_of(content)) == Err::<(Seq<u8>, int), FrameError>(
            FrameError::Framing,
        ),
{
    let reply = file_reply_of(content);
    if valid_utf8(content) {
        let digits = decimal(content.len());
        lemma_decimal_is_digits(content.len());
        lemma_frame_round_trip(content);
        lemma_first_index_unique(reply, SEPARATOR, digits.len() as int);
        assert(reply.subrange(0, digits.len() as int) =~= digits);
        assert(digits[0] != 102u8);
        assert(binary_marker()[0] == 102u8);
    } else {
        lemma_first_index_unique(reply, SEPARATOR, 12);
        assert(reply.subrange(0, 12) =~= binary_marker());
        assert(!crate::frame::is_digit(binary_marker()[0]));
    }
}

} // verus!
