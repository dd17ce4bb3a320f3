//! Small verified helpers on byte strings.

use vstd::prelude::*;

verus! {

/// `prefix` stands at the front of `s`.
pub open spec fn has_prefix(s: Seq<u8>, prefix: Seq<u8>) -> bool {
    prefix.len() <= s.len() && s.subrange(0, prefix.len() as int) == prefix
}

/// Appends `src` to `out`.
pub fn append(out: &mut Vec<u8>, src: &[u8])
    ensures
        final(out)@ == old(out)@ + src@,
{
    let mut i: usize = 0;
    while i < src.len()
        invariant
            i <= src@.len(),
            out@ == old(out)@ + src@.subrange(0, i as int),
        decreases src@.len() - i,
    {
        out.push(src[i]);
        i += 1;
        proof {
            assert(src@.subrange(0, i as int) =~= src@.subrange(0, i - 1).push(src@[i - 1]));
            assert(out@ =~= old(out)@ + src@.subrange(0, i as int));
        }
    }
    proof {
        assert(src@.subrange(0, i as int) =~= src@);
    }
}

/// A copy of the bytes of `src` from `from` up to `to`.
pub fn copy_range(src: &[u8], from: usize, to: usize) -> (out: Vec<u8>)
    requires
        from <= to <= src@.len(),
    ensures
        out@ == src@.subrange(from as int, to as int),
{
    let mut out: Vec<u8> = Vec::new();
    let mut i: usize = from;
    while i < to
        invariant
            from <= i <= to <= src@.len(),
            out@ == src@.subrange(from as int, i as int),
        decreases to - i,
    {
        out.push(src[i]);
        i += 1;
        proof {
            assert(out@ =~= src@.subrange(from as int, i as int));
        }
    }
    out
}

/// Whether two byte strings are the same.
pub fn equal(a: &[u8], b: &[u8]) -> (same: bool)
    ensures
        same == (a@ == b@),
{
    if a.len() != b.len() {
        return false;
    }
    let mut i: usize = 0;
    while i < a.len()
        invariant
            a@.len() == b@.len(),
            i <= a@.len(),
            a@.subrange(0, i as int) == b@.subrange(0, i as int),
        decreases a@.len() - i,
    {
        if a[i] != b[i] {
            return false;
        }
        i += 1;
        proof {
            assert(a@.subrange(0, i as int) =~= a@.subrange(0, i - 1).push(a@[i - 1]));
            assert(b@.subrange(0, i as int) =~= b@.subrange(0, i - 1).push(b@[i - 1]));
        }
    }
    proof {
        assert(a@.subrange(0, i as int) =~= a@);
        assert(b@.subrange(0, i as int) =~= b@);
    }
    true
}

/// Whether `prefix` stands at the front of `s`.
pub fn starts_with(s: &[u8], prefix: &[u8]) -> (yes: bool)
    ensures
        yes == has_prefix(s@, prefix@),
{
    if prefix.len() > s.len() {
        return false;
    }
    let mut i: usize = 0;
    while i < prefix.len()
        invariant
            prefix@.len() <= s@.len(),
            i <= prefix@.len(),
            s@.subrange(0, i as int) == prefix@.subrange(0, i as int),
        decreases prefix@.len() - i,
    {
        if s[i] != prefix[i] {
            proof {
                assert(s@.subrange(0, prefix@.len() as int)[i as int] == s@[i as int]);
            }
            return false;
        }
        i += 1;
        proof {
            assert(s@.subrange(0, i as int) =~= s@.subrange(0, i - 1).push(s@[i - 1]));
            assert(prefix@.subrange(0, i as int) =~= prefix@.subrange(0, i - 1).push(prefix@[i - 1]));
        }
    }
    proof {
        assert(prefix@.subrange(0, i as int) =~= prefix@);
    }
    true
}

/// `needle` stands somewhere in `s`.
pub open spec fn occurs_in(needle: Seq<u8>, s: Seq<u8>) -> bool {
    exists|k: int| 0 <= k <= s.len() && has_prefix(#[trigger] s.skip(k), needle)
}

/// Whether `needle` stands somewhere in `s`.
pub fn contains(s: &[u8], needle: &[u8]) -> (yes: bool)
    ensures
        yes == occurs_in(needle@, s@),
{
    let total: usize = s.len();
    if needle.len() > total {
        return false;
    }
    let last: usize = total - needle.len();
    let mut k: usize = 0;
    loop
        invariant
            total == s@.len(),
            last == total - needle@.len(),
            k <= last,
            forall|j: int| 0 <= j < k ==> !has_prefix(#[trigger] s@.skip(j), needle@),
        decreases last - k,
    {
        let tail = vstd::slice::slice_subrange(s, k, total);
        proof {
            assert(tail@ =~= s@.skip(k as int));
        }
        if starts_with(tail, needle) {
            return true;
        }
        if k == last {
            return false;
        }
        k += 1;
    }
}

} // verus!
