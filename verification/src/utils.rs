//! Shared helpers: trailing-NUL stripping for the fixed-width text fields of a
//! chunk header, and trusted bridges to the standard library's UTF-8 decoders.

use vstd::prelude::*;

verus! {

/// The index one past the last nonzero byte of `s`, or 0 when every byte is
/// zero (or `s` is empty).
pub open spec fn last_nonzero_end(s: Seq<u8>) -> int
    decreases s.len(),
{
    if s.len() == 0 {
        0
    } else if s.last() != 0 {
        s.len() as int
    } else {
        last_nonzero_end(s.drop_last())
    }
}

/// A byte sequence with its trailing NUL bytes stripped: everything up to and
/// including the last nonzero byte. NUL bytes in the middle are kept; an
/// all-zero sequence strips to the empty sequence.
pub open spec fn strip_trailing_nulls(s: Seq<u8>) -> Seq<u8> {
    s.subrange(0, last_nonzero_end(s))
}

proof fn lemma_last_nonzero_end_agrees(s: Seq<u8>, k: int)
    requires
        0 <= k <= s.len(),
        k == 0 || s[k - 1] != 0,
        forall|j: int| k <= j < s.len() ==> s[j] == 0,
    ensures
        last_nonzero_end(s) == k,
    decreases s.len(),
{
    if s.len() == 0 {
    } else if k == s.len() {
        assert(s.last() == s[k - 1]);
    } else {
        assert(s.last() == 0);
        assert(forall|j: int| k <= j < s.drop_last().len() ==> s.drop_last()[j] == 0);
        if k > 0 {
            assert(s.drop_last()[k - 1] == s[k - 1]);
        }
        lemma_last_nonzero_end_agrees(s.drop_last(), k);
    }
}

/// Strips only trailing NUL bytes, never NULs in the middle; an all-zero
/// input strips to nothing, and an empty input stays empty.
pub fn remove_null_bytes(buffer: &[u8]) -> (r: Vec<u8>)
    ensures
        r@ == strip_trailing_nulls(buffer@),
{
    let mut end = buffer.len();
    while end > 0 && buffer[end - 1] == 0x00
        invariant
            end <= buffer@.len(),
            forall|j: int| end <= j < buffer@.len() ==> buffer@[j] == 0,
        decreases end,
    {
        end = end - 1;
    }
    proof {
        lemma_last_nonzero_end_agrees(buffer@, end as int);
    }
    vstd::slice::slice_to_vec(&buffer[0..end])
}

/// What `String::from_utf8` decodes a byte sequence to: `Some` holding the
/// decoded characters exactly when the bytes are valid UTF-8.
pub uninterp spec fn utf8_seq(bytes: Seq<u8>) -> Option<Seq<char>>;

/// What `String::from_utf8_lossy` decodes a byte sequence to, with invalid
/// sequences replaced.
pub uninterp spec fn utf8_lossy(bytes: Seq<u8>) -> Seq<char>;

/// Relies on `String::from_utf8`: strict UTF-8 decoding, a function of the
/// byte content alone, succeeding exactly on valid UTF-8.
#[verifier::external_body]
pub(crate) fn string_from_utf8(bytes: Vec<u8>) -> (r: Option<String>)
    ensures
        r is Some <==> utf8_seq(bytes@) is Some,
        r is Some ==> r->0@ == utf8_seq(bytes@)->0,
{
    String::from_utf8(bytes).ok()
}

/// Relies on `String::from_utf8_lossy`: UTF-8 decoding with replacement, a
/// function of the byte content alone; valid UTF-8 passes through unchanged,
/// so on it the lossy decode equals the strict one.
#[verifier::external_body]
pub(crate) fn string_from_utf8_lossy(bytes: &Vec<u8>) -> (r: String)
    ensures
        r@ == utf8_lossy(bytes@),
        utf8_seq(bytes@) is Some ==> r@ == utf8_seq(bytes@)->0,
{
    String::from_utf8_lossy(bytes.as_slice()).into_owned()
}

} // verus!
