//! Contracts that are assumed, not proved: the functions of the standard
//! library and of the crates `md5` and `percent-encoding` that the library
//! calls and that have no specification elsewhere.

use crate::protocol::percent_decoded;
use vstd::prelude::*;
use vstd::string::*;
use vstd::utf8::*;

verus! {

/// Whether a character is alphabetic or numeric in the sense of Unicode,
/// as `char::is_alphanumeric` decides it.
pub uninterp spec fn unicode_alphanumeric(c: char) -> bool;

/// The MD5 digest of a byte string, as `md5::compute` computes it.
pub uninterp spec fn md5_digest(data: Seq<u8>) -> Seq<u8>;

/// The text that a lossy reading as UTF-8 makes of bytes, as
/// `PercentDecode::decode_utf8_lossy` reads the bytes it has decoded.
pub uninterp spec fn utf8_lossy(bytes: Seq<u8>) -> Seq<char>;

/// `String::push` appends one character to the string.
pub assume_specification[ String::push ](s: &mut String, c: char)
    ensures
        final(s)@ == old(s)@.push(c),
;

/// `c` is an ASCII letter or an ASCII digit.
pub open spec fn is_ascii_alphanumeric(c: char) -> bool {
    ('0' <= c && c <= '9') || ('a' <= c && c <= 'z') || ('A' <= c && c <= 'Z')
}

/// `char::is_alphanumeric` depends on the character alone; its result is
/// named `unicode_alphanumeric`. It is true of the characters that have
/// the Unicode property Alphabetic or are numbers of the categories Nd, Nl
/// and No; among the characters below U+0080 these are the ASCII letters
/// and digits and no others.
pub assume_specification[ char::is_alphanumeric ](c: char) -> (r: bool)
    ensures
        r == unicode_alphanumeric(c),
        (c as u32) < 0x80 ==> r == is_ascii_alphanumeric(c),
;

/// `std::str::from_utf8` accepts exactly the byte strings that are valid
/// UTF-8, and the text it returns is encoded by the bytes it was given.
#[verifier::external_body]
pub(crate) fn text_of_bytes(data: &[u8]) -> (r: Option<&str>)
    ensures
        r is Some <==> valid_utf8(data@),
        r matches Some(text) ==> text.spec_bytes() == data@,
{
    std::str::from_utf8(data).ok()
}

/// `md5::compute` returns the sixteen bytes of the MD5 digest of `data`.
#[verifier::external_body]
pub(crate) fn md5_of(data: &[u8]) -> (r: [u8; 16])
    ensures
        r@ == md5_digest(data@),
{
    md5::compute(data).0
}

/// `percent_encoding::percent_decode_str` turns every `%` that two
/// hexadecimal digits follow into the byte they write and leaves all other
/// bytes of the text as they are; `decode_utf8_lossy` then reads the bytes
/// as text, and what it makes of them is named `utf8_lossy`. Bytes that
/// are valid UTF-8 it reads as they are; only invalid sequences are
/// replaced.
#[verifier::external_body]
pub(crate) fn percent_decode(text: &str) -> (r: String)
    ensures
        r@ == utf8_lossy(percent_decoded(encode_utf8(text@))),
        valid_utf8(percent_decoded(encode_utf8(text@))) ==> r@ == decode_utf8(
            percent_decoded(encode_utf8(text@)),
        ),
{
    percent_encoding::percent_decode_str(text).decode_utf8_lossy().to_string()
}

} // verus!
