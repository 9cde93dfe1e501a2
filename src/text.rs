//! Identifier fields: trimming of zero padding and lossy decoding to text.
use vstd::prelude::*;

verus! {

/// Length of `s` up to and including its last non-zero byte (zero when every
/// byte is zero).
pub open spec fn trimmed_len(s: Seq<u8>) -> nat
    decreases s.len(),
{
    if s.len() == 0 {
        0
    } else if s.last() != 0 {
        s.len()
    } else {
        trimmed_len(s.drop_last())
    }
}

/// `s` without its trailing zero bytes; a field of zeros only is kept whole.
pub open spec fn strip_null_spec(s: Seq<u8>) -> Seq<u8> {
    if trimmed_len(s) == 0 {
        s
    } else {
        s.subrange(0, trimmed_len(s) as int)
    }
}

/// Every byte at index `i` or later is zero exactly when `trimmed_len(s) <= i`.
pub proof fn lemma_trimmed_len(s: Seq<u8>)
    ensures
        trimmed_len(s) <= s.len(),
        trimmed_len(s) > 0 ==> s[trimmed_len(s) - 1] != 0,
        forall|i: int| trimmed_len(s) <= i < s.len() ==> s[i] == 0,
    decreases s.len(),
{
    if s.len() > 0 && s.last() == 0 {
        let t = s.drop_last();
        lemma_trimmed_len(t);
        assert forall|i: int| trimmed_len(s) <= i < s.len() implies s[i] == 0 by {
            if i < t.len() {
                assert(t[i] == s[i]);
            }
        }
    }
}

/// Trims the trailing zero bytes of a fixed-size identifier field. Zero bytes
/// before the last non-zero byte are kept; a field of zeros only comes back
/// unchanged.
pub fn strip_null(slice: &[u8]) -> (r: &[u8])
    ensures
        r@ == strip_null_spec(slice@),
{
    let mut i: usize = slice.len();
    assert(slice@.subrange(0, i as int) =~= slice@);
    while i > 0
        invariant
            i <= slice@.len(),
            trimmed_len(slice@) == trimmed_len(slice@.subrange(0, i as int)),
        decreases i,
    {
        if slice[i - 1] != 0 {
            proof {
                let p = slice@.subrange(0, i as int);
                assert(p.last() != 0);
            }
            return vstd::slice::slice_subrange(slice, 0, i);
        }
        proof {
            let p = slice@.subrange(0, i as int);
            assert(p.drop_last() =~= slice@.subrange(0, i - 1));
        }
        i = i - 1;
    }
    slice
}

/// What `String::from_utf8_lossy` makes of a byte sequence.
pub uninterp spec fn lossy_text(b: Seq<u8>) -> Seq<char>;

/// The characters of a sequence of ASCII bytes, one for each byte.
pub open spec fn ascii_chars(b: Seq<u8>) -> Seq<char> {
    b.map_values(|x: u8| x as char)
}

/// The text of an identifier field: its bytes without the zero padding,
/// decoded lossily.
pub open spec fn id_text(field: Seq<u8>) -> Seq<char> {
    lossy_text(strip_null_spec(field))
}

/// Relies on `String::from_utf8_lossy`: the text depends on the bytes alone,
/// and valid UTF-8 (ASCII in particular) is decoded character for character.
#[verifier::external_body]
pub(crate) fn lossy_string(b: &[u8]) -> (r: String)
    ensures
        r@ == lossy_text(b@),
        (forall|i: int| 0 <= i < b@.len() ==> b@[i] < 0x80) ==> r@ == ascii_chars(b@),
{
    String::from_utf8_lossy(b).into_owned()
}

/// Decodes an identifier field to text: trailing zero bytes dropped, invalid
/// byte sequences replaced.
pub fn identifier_text(field: &[u8]) -> (r: String)
    ensures
        r@ == id_text(field@),
{
    lossy_string(strip_null(field))
}

} // verus!
