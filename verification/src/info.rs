//! The question "what is this entry, and how large": the request that asks
//! it and the reading of the reply.

use vstd::prelude::*;
use crate::bytes::{append, has_prefix};
use crate::command::{fileinfo_tag, fileinfo_tag_bytes};
use crate::frame::{
    all_digits, decimal, decimal_value, is_digit, lemma_decimal_is_digits, parse_number,
    valid_number, SEPARATOR,
};
use crate::listing::{entry_of, lemma_find_unique, rows_of, split, Entry};
use crate::navigator::cut_listing;
use crate::session::info_payload;

verus! {

/// What the server says of an entry.
#[derive(Clone, Copy, Debug, PartialEq, Eq, Structural)]
pub struct Info {
    /// Whether the entry is a regular file.
    pub is_file: bool,
    /// Its size in bytes.
    pub size: u64,
}

/// The request that asks about a row of a listing: `FILEINFO_` and the
/// path of the entry. A row without a tag names no entry.
pub open spec fn info_request_of(row: Seq<u8>) -> Option<Seq<u8>> {
    match entry_of(row) {
        Some(entry) => Some(fileinfo_tag() + entry.path),
        None => None,
    }
}

/// What the payload of an info reply says: numbers separated by the
/// separator, at least two of them, of which the first is 1 for a file and
/// the second is the size. A payload of any other shape says nothing.
pub open spec fn info_of(payload: Seq<u8>) -> Option<Info> {
    let fields = split(payload, seq![SEPARATOR]);
    if fields.len() >= 2 && (forall|i: int| 0 <= i < fields.len() ==> valid_number(#[trigger] fields[i])) {
        Some(Info { is_file: decimal_value(fields[0]) == 1, size: decimal_value(fields[1]) as u64 })
    } else {
        None
    }
}

/// Builds the request that asks about a row of a listing.
pub fn info_request(row: &[u8]) -> (request: Option<Vec<u8>>)
    ensures
        match request {
            Some(r) => info_request_of(row@) == Some(r@),
            None => info_request_of(row@).is_none(),
        },
{
    match Entry::from_row(row) {
        Some(entry) => {
            let mut request = fileinfo_tag_bytes();
            append(&mut request, entry.path.as_slice());
            Some(request)
        },
        None => None,
    }
}

/// Reads the payload of an info reply.
pub fn parse_info(payload: &[u8]) -> (info: Option<Info>)
    ensures
        info == info_of(payload@),
{
    let fields = cut_listing(payload);
    if fields.len() < 2 {
        return None;
    }
    let ghost all = split(payload@, seq![SEPARATOR]);
    let mut i: usize = 0;
    let mut kind: u64 = 0;
    let mut size: u64 = 0;
    while i < fields.len()
        invariant
            i <= fields@.len(),
            fields@.len() >= 2,
            rows_of(fields@) == all,
            all == split(payload@, seq![SEPARATOR]),
            forall|k: int| 0 <= k < i ==> valid_number(#[trigger] all[k]),
            i > 0 ==> kind == decimal_value(all[0]),
            i > 1 ==> size == decimal_value(all[1]),
        decreases fields@.len() - i,
    {
        proof {
            assert(all[i as int] == fields@[i as int]@);
        }
        match parse_number(fields[i].as_slice()) {
            None => {
                proof {
                    assert(!valid_number(all[i as int]));
                }
                return None;
            },
            Some(n) => {
                if i == 0 {
                    kind = n;
                } else if i == 1 {
                    size = n;
                }
            },
        }
        i += 1;
    }
    Some(Info { is_file: kind == 1, size })
}

impl Info {
    /// The size in whole kilobytes of 1024 bytes, rounded down.
    pub fn kilobytes(&self) -> (kb: u64)
        ensures
            kb == self.size / 1024,
    {
        self.size / 1024
    }
}

/// A string of digits holds no separator, so cutting it gives one piece.
proof fn lemma_split_digits(s: Seq<u8>)
    requires
        all_digits(s),
    ensures
        split(s, seq![SEPARATOR]) == seq![s],
{
    let sep = seq![SEPARATOR];
    assert forall|k: int| 0 <= k < s.len() implies !has_prefix(#[trigger] s.skip(k), sep) by {
        if has_prefix(s.skip(k), sep) {
            assert(s.skip(k).subrange(0, 1)[0] == s[k]);
            assert(is_digit(s[k]));
        }
    }
    lemma_find_unique(s, sep, s.len() as int);
}

/// What the server writes for an entry is what the client reads of it.
pub proof fn lemma_info_round_trip(is_file: bool, size: u64)
    ensures
        info_of(info_payload(is_file, size)) == Some(Info { is_file, size }),
{
    let sep = seq![SEPARATOR];
    let payload = info_payload(is_file, size);
    let flag: u8 = if is_file { 49u8 } else { 48u8 };
    let digits = decimal(size as nat);
    lemma_decimal_is_digits(size as nat);
    assert(payload.skip(0) =~= payload);
    assert(payload.skip(1).subrange(0, 1) =~= sep);
    assert forall|k: int| 0 <= k < 1 implies !has_prefix(#[trigger] payload.skip(k), sep) by {
        assert(payload.skip(0).subrange(0, 1)[0] == flag);
    }
    lemma_find_unique(payload, sep, 1);
    assert(payload.subrange(0, 1) =~= seq![flag]);
    assert(payload.subrange(2, payload.len() as int) =~= digits);
    lemma_split_digits(digits);
    let fields = split(payload, sep);
    assert(fields =~= seq![seq![flag], digits]);
    let first = seq![flag];
    assert(first.drop_last() =~= Seq::<u8>::empty());
    assert(decimal_value(first.drop_last()) == 0);
    assert(decimal_value(first) == flag - 48);
    assert(valid_number(first));
    assert(valid_number(digits));
}

} // verus!
