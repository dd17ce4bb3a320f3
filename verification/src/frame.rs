//! The wire unit: an ASCII decimal length, a carriage return, then exactly that
//! many payload bytes.

use vstd::prelude::*;
use vstd::utf8::{encode_scalar, encode_utf8};
use crate::bytes::{append, copy_range, equal};
use crate::text::char_bytes;

verus! {

/// The byte that ends the length field of a frame.
pub const SEPARATOR: u8 = 13;

/// Why a byte stream could not be read as a frame.
#[derive(Clone, Copy, Debug, PartialEq, Eq, Structural)]
pub enum FrameError {
    /// The length field is empty, holds a byte that is no decimal digit, or
    /// names a length that no buffer can have.
    Framing,
    /// The stream ended inside the length field or inside the payload.
    ConnectionClosed,
}

/// What stands in place of the length field when a file is not text: the
/// ASCII bytes of `fileisbinary`.
pub open spec fn binary_marker() -> Seq<u8> {
    seq![102u8, 105u8, 108u8, 101u8, 105u8, 115u8, 98u8, 105u8, 110u8, 97u8, 114u8, 121u8]
}

/// An ASCII decimal digit.
pub open spec fn is_digit(b: u8) -> bool {
    48 <= b <= 57
}

/// Every byte is a decimal digit.
pub open spec fn all_digits(s: Seq<u8>) -> bool {
    forall|i: int| 0 <= i < s.len() ==> is_digit(#[trigger] s[i])
}

/// The decimal digits of `n`, most significant first, without leading zeros.
pub open spec fn decimal(n: nat) -> Seq<u8>
    decreases n,
{
    if n < 10 {
        seq![(48 + n) as u8]
    } else {
        decimal(n / 10).push((48 + n % 10) as u8)
    }
}

/// The number that a string of decimal digits denotes.
pub open spec fn decimal_value(s: Seq<u8>) -> nat
    decreases s.len(),
{
    if s.len() == 0 {
        0
    } else {
        decimal_value(s.drop_last()) * 10 + (s.last() - 48) as nat
    }
}

/// A number is well formed when it is a non-empty string of digits whose
/// value fits 64 bits.
pub open spec fn valid_number(s: Seq<u8>) -> bool {
    s.len() > 0 && all_digits(s) && decimal_value(s) <= u64::MAX
}

/// A length field is well formed when it is a non-empty string of digits
/// whose value fits a machine length.
pub open spec fn valid_length_field(s: Seq<u8>) -> bool {
    s.len() > 0 && all_digits(s) && decimal_value(s) <= usize::MAX
}

/// The bytes on the wire for one payload.
pub open spec fn frame(payload: Seq<u8>) -> Seq<u8> {
    decimal(payload.len()) + seq![SEPARATOR] + payload
}

/// The position of the first occurrence of `b` in `s`, or `s.len()` if there is none.
pub open spec fn first_index_of(s: Seq<u8>, b: u8) -> int
    decreases s.len(),
{
    if s.len() == 0 {
        0
    } else if s[0] == b {
        0
    } else {
        1 + first_index_of(s.skip(1), b)
    }
}

/// What reading one frame from the front of `stream` yields: the payload and
/// the number of bytes used, or the reason for failure.
pub open spec fn decode_frame(stream: Seq<u8>) -> Result<(Seq<u8>, int), FrameError> {
    let cut = first_index_of(stream, SEPARATOR);
    let field = stream.subrange(0, cut);
    if cut >= stream.len() {
        Err(FrameError::ConnectionClosed)
    } else if !valid_length_field(field) {
        Err(FrameError::Framing)
    } else if stream.len() - cut - 1 < decimal_value(field) {
        Err(FrameError::ConnectionClosed)
    } else {
        Ok((stream.subrange(cut + 1, cut + 1 + decimal_value(field)), cut + 1 + decimal_value(field)))
    }
}

/// The first occurrence lies within the string, holds the byte if it is
/// inside, and has no such byte before it.
pub proof fn lemma_first_index_of(s: Seq<u8>, b: u8)
    ensures
        0 <= first_index_of(s, b) <= s.len(),
        first_index_of(s, b) < s.len() ==> s[first_index_of(s, b)] == b,
        forall|j: int| 0 <= j < first_index_of(s, b) ==> s[j] != b,
    decreases s.len(),
{
    if s.len() > 0 && s[0] != b {
        let t = s.skip(1);
        lemma_first_index_of(t, b);
        assert forall|j: int| 0 <= j < first_index_of(s, b) implies s[j] != b by {
            if j > 0 {
                assert(s[j] == t[j - 1]);
            }
        }
    }
}

/// The first occurrence is the only position that holds `b` and has no `b` before it.
pub proof fn lemma_first_index_unique(s: Seq<u8>, b: u8, i: int)
    requires
        0 <= i <= s.len(),
        i < s.len() ==> s[i] == b,
        forall|j: int| 0 <= j < i ==> s[j] != b,
    ensures
        first_index_of(s, b) == i,
{
    lemma_first_index_of(s, b);
}

/// The decimal form of a number is a non-empty string of digits that
/// denotes the number.
pub proof fn lemma_decimal_is_digits(n: nat)
    ensures
        decimal(n).len() > 0,
        all_digits(decimal(n)),
        decimal_value(decimal(n)) == n,
    decreases n,
{
    if n < 10 {
        let s = decimal(n);
        assert(s.drop_last() =~= Seq::<u8>::empty());
        assert(decimal_value(s.drop_last()) == 0);
    } else {
        lemma_decimal_is_digits(n / 10);
        let s = decimal(n);
        assert(s.drop_last() =~= decimal(n / 10));
    }
}

/// Reading back what was written yields the payload, and uses the whole frame.
pub proof fn lemma_frame_round_trip(payload: Seq<u8>)
    requires
        payload.len() <= usize::MAX,
    ensures
        decode_frame(frame(payload)) == Ok::<(Seq<u8>, int), FrameError>((payload, frame(payload).len() as int)),
{
    let digits = decimal(payload.len());
    let wire = frame(payload);
    lemma_decimal_is_digits(payload.len());
    lemma_first_index_unique(wire, SEPARATOR, digits.len() as int);
    assert(wire.subrange(0, digits.len() as int) =~= digits);
    let start = digits.len() as int + 1;
    assert(wire.subrange(start, start + payload.len()) =~= payload);
}

/// A prefix of a string of digits denotes no more than the whole.
pub proof fn lemma_value_of_prefix(s: Seq<u8>, k: int)
    requires
        0 <= k <= s.len(),
    ensures
        decimal_value(s.subrange(0, k)) <= decimal_value(s),
    decreases s.len() - k,
{
    if k == s.len() {
        assert(s.subrange(0, k) =~= s);
    } else {
        lemma_value_of_prefix(s.drop_last(), k);
        assert(s.drop_last().subrange(0, k) =~= s.subrange(0, k));
    }
}

/// Appends the decimal digits of `n` to `out`.
pub fn push_decimal(n: u64, out: &mut Vec<u8>)
    ensures
        final(out)@ == old(out)@ + decimal(n as nat),
    decreases n,
{
    if n >= 10 {
        push_decimal(n / 10, out);
    }
    let digit: u8 = (n % 10) as u8;
    out.push(48 + digit);
    proof {
        assert(final(out)@ =~= old(out)@ + decimal(n as nat));
    }
}

/// The bytes of the marker that a reply to a file request carries in place
/// of a length when the file is not text.
pub fn binary_marker_bytes() -> (out: Vec<u8>)
    ensures
        out@ == binary_marker(),
{
    let out: Vec<u8> = vec![102, 105, 108, 101, 105, 115, 98, 105, 110, 97, 114, 121];
    proof {
        assert(out@ =~= binary_marker());
    }
    out
}

/// Puts `payload` on the wire: its length in decimal, the separator, then the bytes.
pub fn write_frame(payload: &[u8]) -> (wire: Vec<u8>)
    ensures
        wire@ == frame(payload@),
{
    let mut wire: Vec<u8> = Vec::new();
    push_decimal(payload.len() as u64, &mut wire);
    wire.push(SEPARATOR);
    append(&mut wire, payload);
    proof {
        assert(wire@ =~= frame(payload@));
    }
    wire
}

/// Reads a number: a non-empty string of decimal digits whose value fits 64 bits.
pub fn parse_number(field: &[u8]) -> (r: Option<u64>)
    ensures
        match r {
            Some(n) => valid_number(field@) && n == decimal_value(field@),
            None => !valid_number(field@),
        },
{
    if field.len() == 0 {
        return None;
    }
    let mut acc: u64 = 0;
    let mut i: usize = 0;
    while i < field.len()
        invariant
            i <= field@.len(),
            all_digits(field@.subrange(0, i as int)),
            acc == decimal_value(field@.subrange(0, i as int)),
        decreases field@.len() - i,
    {
        let b: u8 = field[i];
        if b < 48 || b > 57 {
            proof {
                assert(!is_digit(field@[i as int]));
            }
            return None;
        }
        let d: u64 = (b - 48) as u64;
        proof {
            let next = field@.subrange(0, i + 1);
            assert(next.drop_last() =~= field@.subrange(0, i as int));
            assert(next.last() == b);
            assert(decimal_value(next) == acc * 10 + d);
            lemma_value_of_prefix(field@, i + 1);
        }
        if acc > (u64::MAX - d) / 10 {
            return None;
        }
        acc = acc * 10 + d;
        i += 1;
    }
    proof {
        assert(field@.subrange(0, i as int) =~= field@);
    }
    Some(acc)
}

/// Reads a length field: a non-empty string of decimal digits whose value
/// is a length that a buffer can have.
pub fn parse_length(field: &[u8]) -> (r: Result<usize, FrameError>)
    ensures
        match r {
            Ok(n) => valid_length_field(field@) && n == decimal_value(field@),
            Err(e) => !valid_length_field(field@) && e == FrameError::Framing,
        },
{
    match parse_number(field) {
        Some(n) => {
            if n <= usize::MAX as u64 {
                Ok(n as usize)
            } else {
                Err(FrameError::Framing)
            }
        },
        None => Err(FrameError::Framing),
    }
}

/// The position of the first separator in `stream`, or its length if it holds none.
pub fn find_separator(stream: &[u8]) -> (cut: usize)
    ensures
        cut == first_index_of(stream@, SEPARATOR),
{
    let mut i: usize = 0;
    while i < stream.len() && stream[i] != SEPARATOR
        invariant
            i <= stream@.len(),
            forall|j: int| 0 <= j < i ==> stream@[j] != SEPARATOR,
        decreases stream@.len() - i,
    {
        i += 1;
    }
    proof {
        lemma_first_index_unique(stream@, SEPARATOR, i as int);
    }
    i
}

/// Reads one frame from the front of `stream`. Returns the payload and the
/// number of bytes of `stream` that the frame took.
pub fn read_frame(stream: &[u8]) -> (r: Result<(Vec<u8>, usize), FrameError>)
    ensures
        match r {
            Ok((payload, used)) => decode_frame(stream@) == Ok::<(Seq<u8>, int), FrameError>((payload@, used as int)),
            Err(e) => decode_frame(stream@) == Err::<(Seq<u8>, int), FrameError>(e),
        },
{
    let cut = find_separator(stream);
    if cut >= stream.len() {
        return Err(FrameError::ConnectionClosed);
    }
    let field = copy_range(stream, 0, cut);
    match parse_length(field.as_slice()) {
        Err(e) => Err(e),
        Ok(n) => {
            if stream.len() - cut - 1 < n {
                Err(FrameError::ConnectionClosed)
            } else {
                let payload = copy_range(stream, cut + 1, cut + 1 + n);
                Ok((payload, cut + 1 + n))
            }
        },
    }
}

/// What the length field of a reply announces.
#[derive(Clone, Copy, Debug, PartialEq, Eq, Structural)]
pub enum Header {
    /// So many payload bytes follow.
    Payload(usize),
    /// The binary marker stood in place of a length: nothing follows.
    Binary,
    /// The field is no length.
    Malformed,
}

/// What a complete length field means. Only the reply to a file request may
/// carry the binary marker; everywhere else `accept_marker` is false and the
/// marker is a malformed length like any other.
pub open spec fn header_of(field: Seq<u8>, accept_marker: bool) -> Header {
    if accept_marker && field == binary_marker() {
        Header::Binary
    } else if valid_length_field(field) {
        Header::Payload(decimal_value(field) as usize)
    } else {
        Header::Malformed
    }
}

/// Decides what a complete length field means.
pub fn read_header(field: &[u8], accept_marker: bool) -> (header: Header)
    ensures
        header == header_of(field@, accept_marker),
{
    if accept_marker {
        let marker = binary_marker_bytes();
        if equal(field, marker.as_slice()) {
            return Header::Binary;
        }
    }
    match parse_length(field) {
        Ok(n) => Header::Payload(n),
        Err(_) => Header::Malformed,
    }
}

/// What a byte handed to a [`HeaderReader`] led to.
#[derive(Clone, Copy, Debug, PartialEq, Eq, Structural)]
pub enum HeaderStep {
    /// The field is not complete: hand over the next byte.
    More,
    /// The separator arrived: this is what the field means.
    Done(Header),
}

/// Collects a length field one byte at a time, for a caller that receives
/// the stream piecemeal.
pub struct HeaderReader {
    field: Vec<u8>,
    accept_marker: bool,
}

impl HeaderReader {
    /// The bytes collected so far.
    pub closed spec fn field(&self) -> Seq<u8> {
        self.field@
    }

    /// Whether the binary marker is accepted in place of a length.
    pub closed spec fn accepts_marker(&self) -> bool {
        self.accept_marker
    }

    /// A reader that has seen nothing yet.
    pub fn new(accept_marker: bool) -> (reader: HeaderReader)
        ensures
            reader.field() == Seq::<u8>::empty(),
            reader.accepts_marker() == accept_marker,
    {
        HeaderReader { field: Vec::new(), accept_marker }
    }

    /// Takes the next byte of the stream. Any byte but the separator joins
    /// the field; the separator ends it and the field is judged.
    pub fn push(&mut self, byte: u8) -> (step: HeaderStep)
        ensures
            final(self).accepts_marker() == old(self).accepts_marker(),
            byte != SEPARATOR ==> step == HeaderStep::More && final(self).field() == old(self).field().push(byte),
            byte == SEPARATOR ==> step == HeaderStep::Done(header_of(old(self).field(), old(self).accepts_marker()))
                && final(self).field() == old(self).field(),
    {
        if byte == SEPARATOR {
            HeaderStep::Done(read_header(self.field.as_slice(), self.accept_marker))
        } else {
            self.field.push(byte);
            HeaderStep::More
        }
    }
}

/// The reply to a file request, as it is read from the wire.
#[derive(Debug)]
pub enum FileReply {
    /// The file is not text and was not sent.
    Binary,
    /// The bytes of the file.
    Content(Vec<u8>),
}

/// The model of a [`FileReply`].
pub enum FileReplyView {
    Binary,
    Content(Seq<u8>),
}

impl View for FileReply {
    type V = FileReplyView;

    open spec fn view(&self) -> FileReplyView {
        match self {
            FileReply::Binary => FileReplyView::Binary,
            FileReply::Content(bytes) => FileReplyView::Content(bytes@),
        }
    }
}

/// What reading the reply to a file request from the front of `stream`
/// yields: the reply and the number of bytes used, or the reason for failure.
pub open spec fn decode_file_reply(stream: Seq<u8>) -> Result<(FileReplyView, int), FrameError> {
    let cut = first_index_of(stream, SEPARATOR);
    if cut < stream.len() && stream.subrange(0, cut) == binary_marker() {
        Ok((FileReplyView::Binary, cut + 1))
    } else {
        match decode_frame(stream) {
            Ok((payload, used)) => Ok((FileReplyView::Content(payload), used)),
            Err(e) => Err(e),
        }
    }
}

/// Reads the reply to a file request from the front of `stream`: either the
/// binary marker with its separator, or one frame.
pub fn read_file_reply(stream: &[u8]) -> (r: Result<(FileReply, usize), FrameError>)
    ensures
        match r {
            Ok((reply, used)) => decode_file_reply(stream@) == Ok::<(FileReplyView, int), FrameError>((reply@, used as int)),
            Err(e) => decode_file_reply(stream@) == Err::<(FileReplyView, int), FrameError>(e),
        },
{
    let cut = find_separator(stream);
    if cut < stream.len() {
        let field = copy_range(stream, 0, cut);
        let marker = binary_marker_bytes();
        if equal(field.as_slice(), marker.as_slice()) {
            return Ok((FileReply::Binary, cut + 1));
        }
    }
    match read_frame(stream) {
        Ok((payload, used)) => Ok((FileReply::Content(payload), used)),
        Err(e) => Err(e),
    }
}

/// The bytes on the wire for a text: its length in bytes, in decimal, the
/// separator character, then the text.
pub open spec fn packet(data: Seq<u8>, separator: char) -> Seq<u8> {
    decimal(data.len()) + encode_scalar(separator as u32) + data
}

/// Builds the packet for `data`. With a carriage return as the separator
/// this is the frame of the text's bytes.
pub fn build_packet(data: String, seperator: char) -> (wire: Vec<u8>)
    ensures
        wire@ == packet(encode_utf8(data@), seperator),
        seperator == '\r' ==> wire@ == frame(encode_utf8(data@)),
{
    let text = data.as_str();
    let body = text.as_bytes();
    let mut wire: Vec<u8> = Vec::new();
    push_decimal(body.len() as u64, &mut wire);
    let mark = char_bytes(seperator);
    append(&mut wire, mark.as_slice());
    append(&mut wire, body);
    proof {
        if seperator == '\r' {
            lemma_carriage_return();
        }
    }
    wire
}

/// A carriage return is encoded as the single separator byte.
pub proof fn lemma_carriage_return()
    ensures
        encode_scalar('\r' as u32) == seq![SEPARATOR],
{
    let c: u32 = '\r' as u32;
    assert(c == 13);
    assert(vstd::utf8::has_width_1_encoding(c)) by (bit_vector)
        requires c == 13;
    assert(vstd::utf8::leading_byte_width_1(c) == 13) by (bit_vector)
        requires c == 13;
    assert(encode_scalar(c) =~= seq![SEPARATOR]);
}

} // verus!
