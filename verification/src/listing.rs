//! Directory listings as they travel over the wire: entries tagged with
//! their kind, joined by the separator.

use vstd::prelude::*;
use vstd::utf8::{encode_utf8, is_continuation_byte};
use crate::bytes::{append, copy_range, has_prefix, starts_with};
use crate::frame::SEPARATOR;

verus! {

/// What kind of filesystem item an entry names.
#[derive(Clone, Copy, Debug, PartialEq, Eq, Structural)]
pub enum EntryKind {
    File,
    Directory,
}

/// One filesystem item as the server exposes it.
#[derive(Debug)]
pub struct Entry {
    pub kind: EntryKind,
    pub path: Vec<u8>,
}

/// The model of an [`Entry`].
pub struct EntryView {
    pub kind: EntryKind,
    pub path: Seq<u8>,
}

impl View for Entry {
    type V = EntryView;

    open spec fn view(&self) -> EntryView {
        EntryView { kind: self.kind, path: self.path@ }
    }
}

/// The ASCII bytes of `FILE_`.
pub open spec fn file_tag() -> Seq<u8> {
    seq![70u8, 73u8, 76u8, 69u8, 95u8]
}

/// The ASCII bytes of `DIR_`.
pub open spec fn dir_tag() -> Seq<u8> {
    seq![68u8, 73u8, 82u8, 95u8]
}

/// The ASCII bytes of `..`.
pub open spec fn dot_dot() -> Seq<u8> {
    seq![46u8, 46u8]
}

/// The entry that stands for "go up": `DIR_..`.
pub open spec fn parent_row() -> Seq<u8> {
    dir_tag() + dot_dot()
}

/// The tag that marks an entry of a kind.
pub open spec fn tag_of(kind: EntryKind) -> Seq<u8> {
    match kind {
        EntryKind::File => file_tag(),
        EntryKind::Directory => dir_tag(),
    }
}

/// An entry on the wire: its tag, then its path.
pub open spec fn row_of(entry: EntryView) -> Seq<u8> {
    tag_of(entry.kind) + entry.path
}

/// What a row of a listing denotes, if it carries one of the two tags.
pub open spec fn entry_of(row: Seq<u8>) -> Option<EntryView> {
    if has_prefix(row, file_tag()) {
        Some(EntryView { kind: EntryKind::File, path: row.subrange(5, row.len() as int) })
    } else if has_prefix(row, dir_tag()) {
        Some(EntryView { kind: EntryKind::Directory, path: row.subrange(4, row.len() as int) })
    } else {
        None
    }
}

/// The rows held by a vector of byte strings.
pub open spec fn rows_of(rows: Seq<Vec<u8>>) -> Seq<Seq<u8>> {
    Seq::new(rows.len(), |i: int| rows[i]@)
}

/// The rows that a sequence of entries is sent as.
pub open spec fn rows_of_entries(entries: Seq<Entry>) -> Seq<Seq<u8>> {
    Seq::new(entries.len(), |i: int| row_of(entries[i]@))
}

/// The listing of a directory: `DIR_..` first if the directory has a
/// parent, then its children in the order given.
pub open spec fn listing_of(has_parent: bool, children: Seq<Entry>) -> Seq<Seq<u8>> {
    if has_parent {
        seq![parent_row()] + rows_of_entries(children)
    } else {
        rows_of_entries(children)
    }
}

/// The rows joined by `sep`; no row gives the empty string.
pub open spec fn join(rows: Seq<Seq<u8>>, sep: Seq<u8>) -> Seq<u8>
    decreases rows.len(),
{
    if rows.len() == 0 {
        Seq::<u8>::empty()
    } else if rows.len() == 1 {
        rows[0]
    } else {
        join(rows.drop_last(), sep) + sep + rows.last()
    }
}

/// The position at which `sep` first occurs in `s`, or `s.len()` if it does not occur.
pub open spec fn find(s: Seq<u8>, sep: Seq<u8>) -> int
    decreases s.len(),
{
    if s.len() < sep.len() || s.len() == 0 {
        s.len() as int
    } else if has_prefix(s, sep) {
        0
    } else {
        1 + find(s.skip(1), sep)
    }
}

/// `s` cut at each occurrence of a non-empty `sep`, found from left to
/// right without overlap.
pub open spec fn pieces(s: Seq<u8>, sep: Seq<u8>) -> Seq<Seq<u8>>
    decreases s.len(),
{
    let i = find(s, sep);
    if sep.len() == 0 || i < 0 || i + sep.len() > s.len() {
        seq![s]
    } else {
        seq![s.subrange(0, i)] + pieces(s.subrange(i + sep.len(), s.len() as int), sep)
    }
}

/// The number of bytes of the first character of `s`: its first byte and
/// the continuation bytes that follow it.
pub open spec fn first_char_len(s: Seq<u8>) -> int
    decreases s.len(),
{
    if s.len() <= 1 {
        s.len() as int
    } else if !is_continuation_byte(s[1]) {
        1
    } else {
        1 + first_char_len(s.skip(1))
    }
}

/// `s` cut before each byte that begins a character.
pub open spec fn chars_of(s: Seq<u8>) -> Seq<Seq<u8>>
    decreases s.len(),
{
    let n = first_char_len(s);
    if s.len() == 0 {
        Seq::<Seq<u8>>::empty()
    } else if n <= 0 || n > s.len() {
        seq![s]
    } else {
        seq![s.subrange(0, n)] + chars_of(s.skip(n))
    }
}

/// `s` cut at each occurrence of `sep`, found from left to right without
/// overlap; the pieces joined by `sep` give `s` back. The empty separator
/// occurs before each character and at the end: it gives an empty piece,
/// the characters one by one, and an empty piece.
pub open spec fn split(s: Seq<u8>, sep: Seq<u8>) -> Seq<Seq<u8>> {
    if sep.len() == 0 {
        seq![Seq::<u8>::empty()] + chars_of(s) + seq![Seq::<u8>::empty()]
    } else {
        pieces(s, sep)
    }
}

impl Entry {
    /// The entry as it is sent: `FILE_` or `DIR_`, then the path.
    pub fn to_row(&self) -> (row: Vec<u8>)
        ensures
            row@ == row_of(self@),
    {
        let mut row: Vec<u8> = match self.kind {
            EntryKind::File => file_tag_bytes(),
            EntryKind::Directory => dir_tag_bytes(),
        };
        append(&mut row, self.path.as_slice());
        row
    }

    /// Reads a row of a listing. A row without a tag is no entry.
    pub fn from_row(row: &[u8]) -> (entry: Option<Entry>)
        ensures
            match entry {
                Some(e) => entry_of(row@) == Some(e@),
                None => entry_of(row@).is_none(),
            },
    {
        let file = file_tag_bytes();
        let dir = dir_tag_bytes();
        if starts_with(row, file.as_slice()) {
            Some(Entry { kind: EntryKind::File, path: copy_range(row, 5, row.len()) })
        } else if starts_with(row, dir.as_slice()) {
            Some(Entry { kind: EntryKind::Directory, path: copy_range(row, 4, row.len()) })
        } else {
            None
        }
    }
}

/// Reading a row that was written for an entry gives the entry back.
pub proof fn lemma_entry_round_trip(entry: EntryView)
    ensures
        entry_of(row_of(entry)) == Some(entry),
{
    let row = row_of(entry);
    match entry.kind {
        EntryKind::File => {
            assert(row.subrange(0, 5) =~= file_tag());
            assert(row.subrange(5, row.len() as int) =~= entry.path);
        },
        EntryKind::Directory => {
            assert(row.subrange(0, 4) =~= dir_tag());
            assert(row.subrange(4, row.len() as int) =~= entry.path);
            if has_prefix(row, file_tag()) {
                assert(row.subrange(0, 5)[0] == row[0]);
                assert(false);
            }
        },
    }
}

/// The bytes of `FILE_`.
pub fn file_tag_bytes() -> (out: Vec<u8>)
    ensures
        out@ == file_tag(),
{
    let out: Vec<u8> = vec![70, 73, 76, 69, 95];
    proof {
        assert(out@ =~= file_tag());
    }
    out
}

/// The bytes of `DIR_`.
pub fn dir_tag_bytes() -> (out: Vec<u8>)
    ensures
        out@ == dir_tag(),
{
    let out: Vec<u8> = vec![68, 73, 82, 95];
    proof {
        assert(out@ =~= dir_tag());
    }
    out
}

/// The bytes of `DIR_..`.
pub fn parent_row_bytes() -> (out: Vec<u8>)
    ensures
        out@ == parent_row(),
{
    let out: Vec<u8> = vec![68, 73, 82, 95, 46, 46];
    proof {
        assert(out@ =~= parent_row());
    }
    out
}

/// Builds the listing of a directory from what was found in it. The caller
/// says whether the directory has a parent and names its children in the
/// order in which the filesystem gave them.
pub fn list_directory(has_parent: bool, children: &Vec<Entry>) -> (listing: Vec<Vec<u8>>)
    ensures
        rows_of(listing@) == listing_of(has_parent, children@),
        has_parent ==> listing@.len() > 0 && listing@[0]@ == parent_row(),
        !has_parent ==> listing@.len() == children@.len(),
{
    let mut listing: Vec<Vec<u8>> = Vec::new();
    if has_parent {
        listing.push(parent_row_bytes());
    }
    let ghost lead: int = if has_parent { 1 } else { 0 };
    let mut i: usize = 0;
    while i < children.len()
        invariant
            i <= children@.len(),
            lead == (if has_parent { 1int } else { 0int }),
            listing@.len() == lead + i,
            has_parent ==> listing@[0]@ == parent_row(),
            forall|k: int| 0 <= k < i ==> (#[trigger] listing@[lead + k])@ == row_of(children@[k]@),
        decreases children@.len() - i,
    {
        let row = children[i].to_row();
        listing.push(row);
        i += 1;
    }
    proof {
        let got = rows_of(listing@);
        let want = listing_of(has_parent, children@);
        assert(got.len() == want.len());
        assert forall|k: int| 0 <= k < got.len() implies got[k] == want[k] by {
            if has_parent {
                if k > 0 {
                    assert(listing@[lead + (k - 1)]@ == row_of(children@[k - 1]@));
                }
            } else {
                assert(listing@[lead + k]@ == row_of(children@[k]@));
            }
        }
        assert(got =~= want);
    }
    listing
}

/// Joins the rows of a listing by `sep`.
pub fn join_rows(rows: &Vec<Vec<u8>>, sep: &[u8]) -> (out: Vec<u8>)
    ensures
        out@ == join(rows_of(rows@), sep@),
{
    let mut out: Vec<u8> = Vec::new();
    let mut i: usize = 0;
    while i < rows.len()
        invariant
            i <= rows@.len(),
            out@ == join(rows_of(rows@).subrange(0, i as int), sep@),
        decreases rows@.len() - i,
    {
        if i > 0 {
            append(&mut out, sep);
        }
        append(&mut out, rows[i].as_slice());
        i += 1;
        proof {
            let all = rows_of(rows@);
            let now = all.subrange(0, i as int);
            assert(now.drop_last() =~= all.subrange(0, i - 1));
            assert(now.last() == rows@[i - 1]@);
            if i == 1 {
                assert(out@ =~= now[0]);
            }
        }
    }
    proof {
        assert(rows_of(rows@).subrange(0, i as int) =~= rows_of(rows@));
    }
    out
}

/// The payload of a listing reply: the rows joined by the separator byte.
pub fn listing_payload(rows: &Vec<Vec<u8>>) -> (out: Vec<u8>)
    ensures
        out@ == join(rows_of(rows@), seq![SEPARATOR]),
{
    let sep: Vec<u8> = vec![SEPARATOR];
    proof {
        assert(sep@ =~= seq![SEPARATOR]);
    }
    join_rows(rows, sep.as_slice())
}

/// The first occurrence lies within the string, is an occurrence if it
/// is inside, and has no occurrence before it.
pub proof fn lemma_find(s: Seq<u8>, sep: Seq<u8>)
    ensures
        0 <= find(s, sep) <= s.len(),
        find(s, sep) < s.len() ==> has_prefix(s.skip(find(s, sep)), sep),
        forall|k: int| 0 <= k < find(s, sep) ==> !has_prefix(#[trigger] s.skip(k), sep),
    decreases s.len(),
{
    if s.len() < sep.len() || s.len() == 0 {
    } else if has_prefix(s, sep) {
        assert(s.skip(0) =~= s);
    } else {
        let t = s.skip(1);
        lemma_find(t, sep);
        let f = find(t, sep);
        if f < t.len() {
            assert(t.skip(f) =~= s.skip(f + 1));
        }
        assert forall|k: int| 0 <= k < 1 + f implies !has_prefix(#[trigger] s.skip(k), sep) by {
            if k == 0 {
                assert(s.skip(0) =~= s);
            } else {
                assert(t.skip(k - 1) =~= s.skip(k));
            }
        }
    }
}

/// The first occurrence is the only position at which `sep` stands and
/// before which it does not.
pub proof fn lemma_find_unique(s: Seq<u8>, sep: Seq<u8>, i: int)
    requires
        0 <= i <= s.len(),
        i < s.len() ==> has_prefix(s.skip(i), sep),
        forall|k: int| 0 <= k < i ==> !has_prefix(#[trigger] s.skip(k), sep),
    ensures
        find(s, sep) == i,
{
    lemma_find(s, sep);
}

/// Where `sep` first occurs in `s` at or after `from`, counted from `from`;
/// the length of the rest if it does not occur.
fn find_from(s: &[u8], from: usize, sep: &[u8]) -> (at: usize)
    requires
        from <= s@.len(),
        sep@.len() > 0,
    ensures
        at == find(s@.skip(from as int), sep@),
        at <= s@.len() - from,
{
    let total: usize = s.len();
    let rest_len: usize = total - from;
    let ghost rest = s@.skip(from as int);
    let mut k: usize = 0;
    while k < rest_len
        invariant
            k <= rest_len,
            from <= s@.len(),
            total == s@.len(),
            rest_len == s@.len() - from,
            rest == s@.skip(from as int),
            sep@.len() > 0,
            forall|j: int| 0 <= j < k ==> !has_prefix(#[trigger] rest.skip(j), sep@),
        decreases rest_len - k,
    {
        let tail = vstd::slice::slice_subrange(s, from + k, total);
        proof {
            assert(tail@ =~= rest.skip(k as int));
        }
        if starts_with(tail, sep) {
            proof {
                lemma_find_unique(rest, sep@, k as int);
            }
            return k;
        }
        k += 1;
    }
    proof {
        lemma_find_unique(rest, sep@, k as int);
    }
    k
}

/// Cuts `data` at each occurrence of a non-empty `sep`.
fn cut_rows(data: &[u8], sep: &[u8]) -> (rows: Vec<Vec<u8>>)
    requires
        sep@.len() > 0,
    ensures
        rows_of(rows@) == pieces(data@, sep@),
{
    let mut rows: Vec<Vec<u8>> = Vec::new();
    let mut start: usize = 0;
    proof {
        assert(data@.skip(0) =~= data@);
        assert(rows_of(rows@) + pieces(data@, sep@) =~= pieces(data@, sep@));
    }
    loop
        invariant
            start <= data@.len(),
            sep@.len() > 0,
            pieces(data@, sep@) == rows_of(rows@) + pieces(data@.skip(start as int), sep@),
        decreases data@.len() - start,
    {
        let at = find_from(data, start, sep);
        let ghost rest = data@.skip(start as int);
        let ghost before = rows_of(rows@);
        if data.len() - start < sep.len() || at > data.len() - start - sep.len() {
            rows.push(copy_range(data, start, data.len()));
            proof {
                assert(data@.subrange(start as int, data@.len() as int) =~= rest);
                assert(pieces(rest, sep@) == seq![rest]);
                assert(rows_of(rows@) =~= before + seq![rest]);
            }
            return rows;
        }
        rows.push(copy_range(data, start, start + at));
        proof {
            let next = (start + at + sep@.len()) as int;
            assert(data@.subrange(start as int, start + at) =~= rest.subrange(0, at as int));
            assert(rest.subrange(at + sep@.len(), rest.len() as int) =~= data@.skip(next));
            assert(pieces(rest, sep@) == seq![rest.subrange(0, at as int)] + pieces(data@.skip(next), sep@));
            assert(rows_of(rows@) =~= before + seq![rest.subrange(0, at as int)]);
            assert(rows_of(rows@) + pieces(data@.skip(next), sep@) =~= before + pieces(rest, sep@));
        }
        start = start + at + sep.len();
    }
}

/// The first character is the only prefix that ends where the next
/// character begins and holds none but continuation bytes after its first.
pub proof fn lemma_first_char_len_unique(s: Seq<u8>, k: int)
    requires
        1 <= k <= s.len(),
        forall|j: int| 1 <= j < k ==> is_continuation_byte(#[trigger] s[j]),
        k < s.len() ==> !is_continuation_byte(s[k]),
    ensures
        first_char_len(s) == k,
    decreases s.len(),
{
    if s.len() > 1 && is_continuation_byte(s[1]) {
        let t = s.skip(1);
        assert forall|j: int| 1 <= j < k - 1 implies is_continuation_byte(#[trigger] t[j]) by {
            assert(t[j] == s[j + 1]);
        }
        lemma_first_char_len_unique(t, k - 1);
    }
}

/// The length of the character that begins at `from`.
fn char_len_at(s: &[u8], from: usize) -> (n: usize)
    requires
        from < s@.len(),
    ensures
        n == first_char_len(s@.skip(from as int)),
        1 <= n <= s@.len() - from,
{
    let total: usize = s.len();
    let ghost rest = s@.skip(from as int);
    let mut k: usize = 1;
    while from + k < total && 128 <= s[from + k] && s[from + k] < 192
        invariant
            from < total,
            total == s@.len(),
            rest == s@.skip(from as int),
            1 <= k <= total - from,
            forall|j: int| 1 <= j < k ==> is_continuation_byte(#[trigger] rest[j]),
        decreases total - from - k,
    {
        k += 1;
    }
    proof {
        lemma_first_char_len_unique(rest, k as int);
    }
    k
}

/// Cuts `data` before each byte that begins a character, with an empty
/// piece in front and one at the end.
fn split_chars(data: &[u8]) -> (rows: Vec<Vec<u8>>)
    ensures
        rows_of(rows@) == seq![Seq::<u8>::empty()] + chars_of(data@) + seq![Seq::<u8>::empty()],
{
    let mut rows: Vec<Vec<u8>> = Vec::new();
    rows.push(Vec::new());
    let ghost lead = seq![Seq::<u8>::empty()];
    let mut start: usize = 0;
    proof {
        assert(data@.skip(0) =~= data@);
        assert(rows_of(rows@) =~= lead);
    }
    while start < data.len()
        invariant
            start <= data@.len(),
            lead == seq![Seq::<u8>::empty()],
            rows_of(rows@) + chars_of(data@.skip(start as int)) == lead + chars_of(data@),
        decreases data@.len() - start,
    {
        let n = char_len_at(data, start);
        let ghost rest = data@.skip(start as int);
        let ghost before = rows_of(rows@);
        rows.push(copy_range(data, start, start + n));
        proof {
            assert(data@.subrange(start as int, start + n) =~= rest.subrange(0, n as int));
            assert(rest.skip(n as int) =~= data@.skip(start + n));
            assert(rows_of(rows@) =~= before + seq![rest.subrange(0, n as int)]);
            assert(rows_of(rows@) + chars_of(data@.skip(start + n)) =~= before + chars_of(rest));
        }
        start = start + n;
    }
    let ghost before = rows_of(rows@);
    rows.push(Vec::new());
    proof {
        assert(chars_of(data@.skip(start as int)) =~= Seq::<Seq<u8>>::empty());
        assert(before =~= lead + chars_of(data@));
        assert(rows_of(rows@) =~= before + seq![Seq::<u8>::empty()]);
    }
    rows
}

/// Cuts `data` at each occurrence of `sep`.
pub fn split_rows(data: &[u8], sep: &[u8]) -> (rows: Vec<Vec<u8>>)
    ensures
        rows_of(rows@) == split(data@, sep@),
{
    if sep.len() == 0 {
        split_chars(data)
    } else {
        cut_rows(data, sep)
    }
}

/// Cuts a text at each occurrence of the separator. The rows are the bytes
/// of the pieces.
pub fn unwrap_empty_string(data_decrypted: String, seperator: &str) -> (rows: Vec<Vec<u8>>)
    ensures
        rows_of(rows@) == split(encode_utf8(data_decrypted@), encode_utf8(seperator@)),
{
    split_rows(data_decrypted.as_str().as_bytes(), seperator.as_bytes())
}

/// No row holds the byte `b`.
pub open spec fn rows_without(rows: Seq<Seq<u8>>, b: u8) -> bool {
    forall|i: int, j: int| 0 <= i < rows.len() && 0 <= j < rows[i].len() ==> #[trigger] rows[i][j] != b
}

/// Joining two or more rows puts the first row and a separator in front
/// of the others joined.
proof fn lemma_join_front(rows: Seq<Seq<u8>>, sep: Seq<u8>)
    requires
        rows.len() >= 2,
    ensures
        join(rows, sep) == rows[0] + sep + join(rows.skip(1), sep),
    decreases rows.len(),
{
    let front = rows.drop_last();
    let back = rows.skip(1);
    if rows.len() == 2 {
        assert(join(front, sep) == rows[0]);
        assert(join(back, sep) == rows[1]);
    } else {
        lemma_join_front(front, sep);
        assert(back.drop_last() =~= front.skip(1));
        assert(join(rows, sep) =~= rows[0] + sep + join(back, sep));
    }
}

/// A listing survives the wire: cutting what was joined by the separator
/// byte gives the rows back, as long as there is at least one row and no
/// row holds that byte.
pub proof fn lemma_split_undoes_join(rows: Seq<Seq<u8>>)
    requires
        rows.len() >= 1,
        rows_without(rows, SEPARATOR),
    ensures
        split(join(rows, seq![SEPARATOR]), seq![SEPARATOR]) == rows,
    decreases rows.len(),
{
    let sep = seq![SEPARATOR];
    let s = join(rows, sep);
    let head = rows[0];
    if rows.len() == 1 {
        assert forall|k: int| 0 <= k < s.len() implies !has_prefix(#[trigger] s.skip(k), sep) by {
            if has_prefix(s.skip(k), sep) {
                assert(s.skip(k).subrange(0, 1)[0] == head[k]);
            }
        }
        lemma_find_unique(s, sep, s.len() as int);
        assert(pieces(s, sep) =~= rows);
    } else {
        let rest = rows.skip(1);
        lemma_join_front(rows, sep);
        let i = head.len() as int;
        assert(s.skip(i).subrange(0, 1) =~= sep);
        assert forall|k: int| 0 <= k < i implies !has_prefix(#[trigger] s.skip(k), sep) by {
            if has_prefix(s.skip(k), sep) {
                assert(s.skip(k).subrange(0, 1)[0] == head[k]);
            }
        }
        lemma_find_unique(s, sep, i);
        assert(s.subrange(0, i) =~= head);
        assert(s.subrange(i + 1, s.len() as int) =~= join(rest, sep));
        assert forall|a: int, b: int| 0 <= a < rest.len() && 0 <= b < rest[a].len() implies #[trigger] rest[a][b]
            != SEPARATOR by {
            assert(rest[a][b] == rows[a + 1][b]);
        }
        lemma_split_undoes_join(rest);
        assert(pieces(s, sep) =~= rows);
    }
}

} // verus!
