//! Entry names: the shape of a hashed entry, the names of the manifest,
//! the suffixes of a model descriptor and the sanitizing of a file name.

use crate::outside::{is_ascii_alphanumeric, md5_digest, md5_of, unicode_alphanumeric};
use crate::text::{chars_end_with, chars_of, has_suffix};
use vstd::utf8::encode_utf8;
use vstd::prelude::*;
use vstd::string::*;

verus! {

/// `c` is a hexadecimal digit in lower case.
pub open spec fn is_lower_hex_digit(c: char) -> bool {
    ('0' <= c && c <= '9') || ('a' <= c && c <= 'f')
}

/// `s` without `suffix` at its end, where it ends with it.
pub open spec fn strip_suffix(s: Seq<char>, suffix: Seq<char>) -> Option<Seq<char>> {
    if has_suffix(s, suffix) {
        Some(s.take(s.len() - suffix.len()))
    } else {
        None
    }
}

/// What stands before the payload suffix of `name`: before `.bin3`, or
/// else before `.bin`.
pub open spec fn payload_stem(name: Seq<char>) -> Option<Seq<char>> {
    match strip_suffix(name, ".bin3"@) {
        Some(stem) => Some(stem),
        None => strip_suffix(name, ".bin"@),
    }
}

/// `name` has the shape of a hashed entry: 32 hexadecimal digits in lower
/// case, followed by a payload suffix.
pub open spec fn is_hashed_name(name: Seq<char>) -> bool {
    match payload_stem(name) {
        Some(stem) => stem.len() == 32 && forall|i: int| 0 <= i < 32 ==> is_lower_hex_digit(stem[i]),
        None => false,
    }
}

/// `name` is that of a model descriptor, modern or legacy.
pub open spec fn is_descriptor_name(name: Seq<char>) -> bool {
    has_suffix(name, ".model3.json"@) || has_suffix(name, ".model.json"@)
}

/// What a character becomes in a sanitized file name.
pub open spec fn sanitized_char(c: char) -> char {
    if unicode_alphanumeric(c) || c == '-' || c == '_' || c == '.' {
        c
    } else {
        '_'
    }
}

/// A name with every character sanitized.
pub open spec fn sanitized(name: Seq<char>) -> Seq<char> {
    Seq::new(name.len(), |i: int| sanitized_char(name[i]))
}

/// The length of the payload stem of a name, where it has one.
pub fn payload_stem_len(name: &[char]) -> (len: Option<usize>)
    ensures
        match payload_stem(name@) {
            Some(stem) => len == Some(stem.len() as usize) && stem == name@.take(
                stem.len() as int,
            ) && stem.len() <= name@.len(),
            None => len is None,
        },
{
    let model = chars_of(".bin3");
    let plain = chars_of(".bin");
    if chars_end_with(name, model.as_slice()) {
        Some(name.len() - model.len())
    } else if chars_end_with(name, plain.as_slice()) {
        Some(name.len() - plain.len())
    } else {
        None
    }
}

fn lower_hex_digit(c: char) -> (r: bool)
    ensures
        r == is_lower_hex_digit(c),
{
    let cp: u32 = c as u32;
    (0x30 <= cp && cp <= 0x39) || (0x61 <= cp && cp <= 0x66)
}

/// Tells whether an entry name has the shape of a hashed entry.
pub fn is_hashed_entry(name: &str) -> (hashed: bool)
    ensures
        hashed == is_hashed_name(name@),
{
    let chars = chars_of(name);
    match payload_stem_len(chars.as_slice()) {
        None => false,
        Some(len) => {
            if len != 32 {
                return false;
            }
            let ghost stem = payload_stem(name@).unwrap();
            assert(stem.len() <= chars.len());
            let mut i: usize = 0;
            while i < 32
                invariant
                    i <= 32,
                    chars@ == name@,
                    payload_stem(name@) == Some(stem),
                    stem.len() == 32,
                    stem == name@.take(32),
                    name@.len() >= 32,
                    forall|j: int| 0 <= j < i ==> is_lower_hex_digit(stem[j]),
                decreases 32 - i,
            {
                if !lower_hex_digit(chars[i]) {
                    assert(!is_lower_hex_digit(stem[i as int]));
                    return false;
                }
                i += 1;
            }
            true
        },
    }
}

/// Tells whether a name is that of a model descriptor.
pub fn is_model_descriptor(name: &str) -> (found: bool)
    ensures
        found == is_descriptor_name(name@),
{
    let chars = chars_of(name);
    let modern = chars_of(".model3.json");
    let legacy = chars_of(".model.json");
    chars_end_with(chars.as_slice(), modern.as_slice()) || chars_end_with(
        chars.as_slice(),
        legacy.as_slice(),
    )
}

/// Every ASCII character of `name` is a letter, a digit or one of `-`, `_`,
/// `.`: the name holds no separator of paths, no colon, no blank and no
/// control character.
pub open spec fn is_plain_name(name: Seq<char>) -> bool {
    forall|i: int|
        0 <= i < name.len() && (name[i] as u32) < 0x80 ==> is_ascii_alphanumeric(name[i])
            || name[i] == '-' || name[i] == '_' || name[i] == '.'
}

/// Makes a name safe as a file name: every character that is neither
/// alphanumeric nor one of `-`, `_`, `.` becomes `_`. The result is as
/// long as the name and is a plain name.
pub fn sanitize_filename(name: &str) -> (clean: String)
    ensures
        clean@ == sanitized(name@),
        is_plain_name(clean@),
{
    let mut clean = String::new();
    for c in it: name.chars()
        invariant
            it.seq() == name@,
            clean@ == sanitized(name@.take(it.index() as int)),
            is_plain_name(clean@),
    {
        let keep = c.is_alphanumeric() || c == '-' || c == '_' || c == '.';
        let out = if keep {
            c
        } else {
            '_'
        };
        proof {
            assert(sanitized(name@.take(it.index() + 1)) =~= sanitized(
                name@.take(it.index() as int),
            ).push(out));
        }
        clean.push(out);
    }
    proof {
        assert(name@.take(name@.len() as int) =~= name@);
    }
    clean
}

/// The lower-case hexadecimal digit of a value below 16.
pub open spec fn hex_char(n: int) -> char {
    if n < 10 {
        (0x30 + n) as char
    } else {
        (0x61 + n - 10) as char
    }
}

/// The bytes written out in lower-case hexadecimal, two digits each.
pub open spec fn hex_lower(bytes: Seq<u8>) -> Seq<char>
    decreases bytes.len(),
{
    if bytes.len() == 0 {
        Seq::empty()
    } else {
        hex_lower(bytes.drop_last()).push(hex_char(bytes.last() as int / 16)).push(
            hex_char(bytes.last() as int % 16),
        )
    }
}

/// The literal name of the manifest entry.
pub open spec fn manifest_name() -> Seq<char> {
    "config.mlve"@
}

/// The hashed name of the manifest entry: the MD5 digest of the literal
/// name, in hexadecimal.
pub open spec fn manifest_hash_name() -> Seq<char> {
    hex_lower(md5_digest(encode_utf8(manifest_name())))
}

/// `name` is one of the three names under which a manifest is looked for.
pub open spec fn is_manifest_name(name: Seq<char>) -> bool {
    name == manifest_name() || name == manifest_hash_name() || name == manifest_hash_name()
        + ".bin"@
}

/// A text that ends with `suffix` holds the characters of `suffix` at its
/// end, one by one.
pub proof fn lemma_suffix_chars(s: Seq<char>, suffix: Seq<char>, k: int)
    requires
        has_suffix(s, suffix),
        0 <= k < suffix.len(),
    ensures
        suffix.len() <= s.len(),
        s[s.len() - suffix.len() + k] == suffix[k],
{
    let at = s.len() - suffix.len();
    assert(s.subrange(at, at + suffix.len())[k] == s[at + k]);
}

/// A hashed entry name is 32 hexadecimal digits in lower case followed by
/// `.bin3` or by `.bin`, and every such name is one.
pub proof fn lemma_hashed_name_shape(name: Seq<char>)
    ensures
        is_hashed_name(name) <==> exists|stem: Seq<char>|
            #![trigger stem.len()]
            stem.len() == 32 && (forall|i: int| 0 <= i < 32 ==> is_lower_hex_digit(stem[i])) && (name
                == stem + ".bin3"@ || name == stem + ".bin"@),
{
    reveal_strlit(".bin3");
    reveal_strlit(".bin");
    if is_hashed_name(name) {
        let stem = payload_stem(name).unwrap();
        if has_suffix(name, ".bin3"@) {
            assert(name =~= stem + ".bin3"@);
        } else {
            assert(name =~= stem + ".bin"@);
        }
    }
    assert forall|stem: Seq<char>|
        stem.len() == 32 && (forall|i: int| 0 <= i < 32 ==> is_lower_hex_digit(stem[i])) && (name == stem
            + ".bin3"@ || name == stem + ".bin"@) implies is_hashed_name(name) by {
        if name == stem + ".bin3"@ {
            assert(name.subrange(32, 37) =~= ".bin3"@);
            assert(name.take(32) =~= stem);
        } else {
            assert(name.subrange(32, 36) =~= ".bin"@);
            assert(name.take(32) =~= stem);
            if has_suffix(name, ".bin3"@) {
                lemma_suffix_chars(name, ".bin3"@, 4);
            }
        }
    }
}

/// The stem of a hashed entry name is made of 32 hexadecimal digits in
/// lower case, and the name is the stem with its payload suffix: 36 or 37
/// characters in all.
pub proof fn lemma_hashed_stem_lower(name: Seq<char>)
    requires
        is_hashed_name(name),
    ensures
        payload_stem(name) matches Some(stem) && stem.len() == 32 && (forall|i: int|
            0 <= i < 32 ==> is_lower_hex_digit(stem[i])) && (name == stem + ".bin3"@ || name
            == stem + ".bin"@),
        name.len() == 36 || name.len() == 37,
{
    reveal_strlit(".bin3");
    reveal_strlit(".bin");
    let stem = payload_stem(name).unwrap();
    if has_suffix(name, ".bin3"@) {
        assert(name =~= stem + ".bin3"@);
    } else {
        assert(name =~= stem + ".bin"@);
    }
}

/// A name that holds a capital letter is not that of a hashed entry.
pub proof fn lemma_capital_not_hashed(name: Seq<char>, at: int)
    requires
        0 <= at < name.len(),
        'A' <= name[at] && name[at] <= 'Z',
    ensures
        !is_hashed_name(name),
{
    reveal_strlit(".bin3");
    reveal_strlit(".bin");
    if is_hashed_name(name) {
        lemma_hashed_stem_lower(name);
        let stem = payload_stem(name).unwrap();
        if at < 32 {
            assert(name[at] == stem[at]);
            assert(is_lower_hex_digit(stem[at]));
        }
    }
}

/// The name of a model descriptor is never that of a hashed entry.
pub proof fn lemma_descriptor_not_hashed(name: Seq<char>)
    requires
        is_descriptor_name(name),
    ensures
        !is_hashed_name(name),
{
    reveal_strlit(".bin3");
    reveal_strlit(".bin");
    reveal_strlit(".model3.json");
    reveal_strlit(".model.json");
    let n = name.len() as int;
    if has_suffix(name, ".model3.json"@) {
        lemma_suffix_chars(name, ".model3.json"@, 11);
        lemma_suffix_chars(name, ".model3.json"@, 8);
    } else {
        lemma_suffix_chars(name, ".model.json"@, 10);
        lemma_suffix_chars(name, ".model.json"@, 7);
    }
    assert(name[n - 1] == 'n' && name[n - 4] == 'j');
    if has_suffix(name, ".bin3"@) {
        lemma_suffix_chars(name, ".bin3"@, 4);
    }
    if has_suffix(name, ".bin"@) {
        lemma_suffix_chars(name, ".bin"@, 0);
    }
}

/// The literal name of the manifest is not that of a hashed entry.
pub proof fn lemma_manifest_name_not_hashed()
    ensures
        !is_hashed_name(manifest_name()),
{
    reveal_strlit(".bin3");
    reveal_strlit(".bin");
    reveal_strlit("config.mlve");
    if has_suffix(manifest_name(), ".bin3"@) {
        lemma_suffix_chars(manifest_name(), ".bin3"@, 4);
    }
    if has_suffix(manifest_name(), ".bin"@) {
        lemma_suffix_chars(manifest_name(), ".bin"@, 3);
    }
}

fn hex_digit_of(n: u8) -> (c: char)
    requires
        n < 16,
    ensures
        c == hex_char(n as int),
{
    if n < 10 {
        (0x30 + n) as char
    } else {
        (0x61 + (n - 10)) as char
    }
}

/// Writes bytes out in lower-case hexadecimal.
pub fn hex_encode(bytes: &[u8]) -> (text: String)
    ensures
        text@ == hex_lower(bytes@),
{
    let mut text = String::new();
    let mut i: usize = 0;
    while i < bytes.len()
        invariant
            i <= bytes.len(),
            text@ == hex_lower(bytes@.take(i as int)),
        decreases bytes.len() - i,
    {
        proof {
            assert(bytes@.take(i + 1).drop_last() =~= bytes@.take(i as int));
        }
        let b: u8 = bytes[i];
        text.push(hex_digit_of(b / 16));
        text.push(hex_digit_of(b % 16));
        i += 1;
    }
    proof {
        assert(bytes@.take(bytes@.len() as int) =~= bytes@);
    }
    text
}

/// Bytes written out in hexadecimal give two lower-case digits each.
pub proof fn lemma_hex_lower(bytes: Seq<u8>)
    ensures
        hex_lower(bytes).len() == 2 * bytes.len(),
        forall|i: int| 0 <= i < hex_lower(bytes).len() ==> is_lower_hex_digit(hex_lower(bytes)[i]),
    decreases bytes.len(),
{
    if bytes.len() > 0 {
        lemma_hex_lower(bytes.drop_last());
        let high = bytes.last() as int / 16;
        let low = bytes.last() as int % 16;
        assert(is_lower_hex_digit(hex_char(high)));
        assert(is_lower_hex_digit(hex_char(low)));
    }
}

/// The MD5 digest of `data`, written out in hexadecimal: 32 digits in
/// lower case.
pub fn md5_hex(data: &[u8]) -> (text: String)
    ensures
        text@ == hex_lower(md5_digest(data@)),
        text@.len() == 32,
        forall|i: int| 0 <= i < 32 ==> is_lower_hex_digit(text@[i]),
{
    let digest = md5_of(data);
    proof {
        lemma_hex_lower(digest@);
    }
    hex_encode(digest.as_slice())
}

/// The hashed name of the manifest entry: 32 hexadecimal digits in lower
/// case.
pub fn manifest_hash() -> (name: String)
    ensures
        name@ == manifest_hash_name(),
        name@.len() == 32,
        forall|i: int| 0 <= i < 32 ==> is_lower_hex_digit(name@[i]),
{
    md5_hex("config.mlve".as_bytes())
}

} // verus!
