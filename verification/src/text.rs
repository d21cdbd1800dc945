//! Byte-level view of ASCII text, and conversion of byte buffers into
//! strings, built on vstd's UTF-8 theory.

use vstd::prelude::*;
use vstd::utf8::*;

verus! {

/// The characters spelled by a sequence of ASCII bytes, one character per
/// byte.
pub open spec fn ascii_chars_of(s: Seq<u8>) -> Seq<char> {
    Seq::new(s.len(), |i: int| s[i] as char)
}

/// A sequence of bytes below 128 is valid UTF-8, decodes to one character
/// per byte, and is the UTF-8 encoding of those characters.
pub proof fn lemma_ascii_bytes_utf8(s: Seq<u8>)
    requires
        forall|i: int| 0 <= i < s.len() ==> s[i] < 128,
    ensures
        valid_utf8(s),
        encode_utf8(ascii_chars_of(s)) == s,
        decode_utf8(s) == ascii_chars_of(s),
{
    let c = ascii_chars_of(s);
    assert forall|i: int| 0 <= i < c.len() implies '\0' <= #[trigger] c[i] <= '\u{7f}' by {
        assert(s[i] < 128);
        assert(c[i] == s[i] as char);
    }
    assert(is_ascii_chars(c));
    is_ascii_chars_encode_utf8(c);
    assert(encode_utf8(c) =~= s);
    encode_utf8_valid_utf8(c);
    encode_utf8_decode_utf8(c);
}

/// Relies on `String::from_utf8` of std: it returns the string whose UTF-8
/// encoding is the given bytes exactly when the bytes are valid UTF-8, and
/// reports failure otherwise.
#[verifier::external_body]
pub(crate) fn string_from_utf8(bytes: Vec<u8>) -> (r: Option<String>)
    ensures
        match r {
            Some(s) => valid_utf8(bytes@) && encode_utf8(s@) == bytes@,
            None => !valid_utf8(bytes@),
        },
{
    match String::from_utf8(bytes) {
        Ok(s) => Some(s),
        Err(_) => None,
    }
}

} // verus!
