//! Classification of a payload by its leading bytes.

use crate::outside::text_of_bytes;
use crate::text::{bytes_occur_at, chars_occur_at, chars_of, has_prefix};
use vstd::prelude::*;
use vstd::string::*;
use vstd::utf8::*;

verus! {

/// What a payload holds, as far as its first bytes tell.
#[derive(Clone, Copy, Debug, PartialEq, Eq, Structural)]
pub enum AssetKind {
    /// A PNG image.
    Png,
    /// Binary model data, version 3.
    Moc3,
    /// Binary model data, version 2.
    Moc,
    /// RIFF audio.
    Wav,
    /// Ogg audio.
    Ogg,
    /// MPEG audio.
    Mp3,
    /// A JPEG image.
    Jpg,
    /// Structured text.
    Json,
    /// Legacy motion text.
    Mtn,
    /// Anything else.
    Bin,
}

/// The first bytes of a PNG image.
pub open spec fn png_magic() -> Seq<u8> {
    seq![0x89u8, 0x50u8, 0x4Eu8, 0x47u8]
}

/// The first bytes of version 3 model data: `MOC3`.
pub open spec fn moc3_magic() -> Seq<u8> {
    seq![0x4Du8, 0x4Fu8, 0x43u8, 0x33u8]
}

/// The first bytes of version 2 model data: `moc`.
pub open spec fn moc_magic() -> Seq<u8> {
    seq![0x6Du8, 0x6Fu8, 0x63u8]
}

/// The first bytes of a RIFF container: `RIFF`.
pub open spec fn riff_magic() -> Seq<u8> {
    seq![0x52u8, 0x49u8, 0x46u8, 0x46u8]
}

/// The first bytes of an Ogg stream: `OggS`.
pub open spec fn ogg_magic() -> Seq<u8> {
    seq![0x4Fu8, 0x67u8, 0x67u8, 0x53u8]
}

/// The marker of an ID3 tag: `ID3`.
pub open spec fn id3_magic() -> Seq<u8> {
    seq![0x49u8, 0x44u8, 0x33u8]
}

/// The first bytes of a JPEG image.
pub open spec fn jpeg_magic() -> Seq<u8> {
    seq![0xFFu8, 0xD8u8, 0xFFu8]
}

/// The payload begins with the frame sync of MPEG audio: a byte `FF`, then
/// a byte whose top three bits are set.
pub open spec fn has_frame_sync(data: Seq<u8>) -> bool {
    data.len() >= 2 && data[0] == 0xFF && data[1] & 0xE0 == 0xE0
}

/// `c` has the Unicode property White_Space.
pub open spec fn is_whitespace(c: char) -> bool {
    let cp = c as int;
    (0x09 <= cp && cp <= 0x0D) || cp == 0x20 || cp == 0x85 || cp == 0xA0 || cp == 0x1680 || (0x2000
        <= cp && cp <= 0x200A) || cp == 0x2028 || cp == 0x2029 || cp == 0x202F || cp == 0x205F
        || cp == 0x3000
}

/// The number of white-space characters at the start of `text`.
pub open spec fn leading_whitespace(text: Seq<char>) -> nat
    decreases text.len(),
{
    if text.len() > 0 && is_whitespace(text[0]) {
        1 + leading_whitespace(text.skip(1))
    } else {
        0
    }
}

/// `text` without the white space at its start.
pub open spec fn trim_start(text: Seq<char>) -> Seq<char> {
    text.skip(leading_whitespace(text) as int)
}

/// What a payload that is text holds: structured text where it opens,
/// after white space, with a brace or a bracket; legacy motion text where
/// it opens with the marker `# Live2D`.
pub open spec fn text_kind(text: Seq<char>) -> AssetKind {
    let body = trim_start(text);
    if body.len() > 0 && (body[0] == '{' || body[0] == '[') {
        AssetKind::Json
    } else if has_prefix(body, "# Live2D"@) {
        AssetKind::Mtn
    } else {
        AssetKind::Bin
    }
}

/// What a payload holds. The binary signatures are tried first, in a fixed
/// order; only a payload that matches none of them and is valid UTF-8 is
/// looked at as text.
pub open spec fn kind_of(data: Seq<u8>) -> AssetKind {
    if has_prefix(data, png_magic()) {
        AssetKind::Png
    } else if has_prefix(data, moc3_magic()) {
        AssetKind::Moc3
    } else if has_prefix(data, moc_magic()) {
        AssetKind::Moc
    } else if has_prefix(data, riff_magic()) {
        AssetKind::Wav
    } else if has_prefix(data, ogg_magic()) {
        AssetKind::Ogg
    } else if has_frame_sync(data) || has_prefix(data, id3_magic()) {
        AssetKind::Mp3
    } else if has_prefix(data, jpeg_magic()) {
        AssetKind::Jpg
    } else if valid_utf8(data) {
        text_kind(decode_utf8(data))
    } else {
        AssetKind::Bin
    }
}

/// The file extension of each kind.
pub open spec fn extension_of(kind: AssetKind) -> Seq<char> {
    match kind {
        AssetKind::Png => "png"@,
        AssetKind::Moc3 => "moc3"@,
        AssetKind::Moc => "moc"@,
        AssetKind::Wav => "wav"@,
        AssetKind::Ogg => "ogg"@,
        AssetKind::Mp3 => "mp3"@,
        AssetKind::Jpg => "jpg"@,
        AssetKind::Json => "json"@,
        AssetKind::Mtn => "mtn"@,
        AssetKind::Bin => "bin"@,
    }
}

impl AssetKind {
    /// The file extension of this kind.
    pub fn extension(self) -> (ext: &'static str)
        ensures
            ext@ == extension_of(self),
    {
        match self {
            AssetKind::Png => "png",
            AssetKind::Moc3 => "moc3",
            AssetKind::Moc => "moc",
            AssetKind::Wav => "wav",
            AssetKind::Ogg => "ogg",
            AssetKind::Mp3 => "mp3",
            AssetKind::Jpg => "jpg",
            AssetKind::Json => "json",
            AssetKind::Mtn => "mtn",
            AssetKind::Bin => "bin",
        }
    }
}

/// A payload that begins with the signature of PNG is a PNG image.
pub proof fn lemma_png_signature(data: Seq<u8>)
    requires
        has_prefix(data, png_magic()),
    ensures
        kind_of(data) == AssetKind::Png,
{
}

/// A payload that begins with `MOC3` is version 3 model data.
pub proof fn lemma_moc3_signature(data: Seq<u8>)
    requires
        has_prefix(data, moc3_magic()),
    ensures
        kind_of(data) == AssetKind::Moc3,
{
    assert(data.subrange(0, 4)[0] == data[0]);
    if has_prefix(data, png_magic()) {
        assert(data.subrange(0, 4) == png_magic());
        assert(png_magic()[0] == moc3_magic()[0]);
    }
}

/// A payload that is text and begins with an opening brace is structured
/// text.
pub proof fn lemma_brace_is_json(data: Seq<u8>)
    requires
        data.len() > 0,
        data[0] == 0x7B,
        valid_utf8(data),
    ensures
        kind_of(data) == AssetKind::Json,
{
    let first = data[0];
    assert(first & 0x7F == 0x7B) by (bit_vector)
        requires
            first == 0x7B,
    ;
    let text = decode_utf8(data);
    assert(text[0] == '{');
    assert(text.len() > 0);
    assert(!is_whitespace(text[0]));
    assert(leading_whitespace(text) == 0);
    assert(trim_start(text) =~= text);
    lemma_no_signature(data);
}

/// A payload whose first byte is an opening brace begins with none of the
/// binary signatures.
proof fn lemma_no_signature(data: Seq<u8>)
    requires
        data.len() > 0,
        data[0] == 0x7B,
    ensures
        !has_prefix(data, png_magic()),
        !has_prefix(data, moc3_magic()),
        !has_prefix(data, moc_magic()),
        !has_prefix(data, riff_magic()),
        !has_prefix(data, ogg_magic()),
        !has_prefix(data, id3_magic()),
        !has_prefix(data, jpeg_magic()),
        !has_frame_sync(data),
{
    if data.len() >= 4 {
        assert(data.subrange(0, 4)[0] == data[0]);
    }
    if data.len() >= 3 {
        assert(data.subrange(0, 3)[0] == data[0]);
    }
    assert(png_magic()[0] == 0x89);
    assert(moc3_magic()[0] == 0x4D);
    assert(moc_magic()[0] == 0x6D);
    assert(riff_magic()[0] == 0x52);
    assert(ogg_magic()[0] == 0x4F);
    assert(id3_magic()[0] == 0x49);
    assert(jpeg_magic()[0] == 0xFF);
}

fn whitespace(c: char) -> (r: bool)
    ensures
        r == is_whitespace(c),
{
    let cp: u32 = c as u32;
    (0x09 <= cp && cp <= 0x0D) || cp == 0x20 || cp == 0x85 || cp == 0xA0 || cp == 0x1680 || (0x2000
        <= cp && cp <= 0x200A) || cp == 0x2028 || cp == 0x2029 || cp == 0x202F || cp == 0x205F
        || cp == 0x3000
}

/// Skipping white space one character at a time.
proof fn lemma_leading_whitespace_step(text: Seq<char>, i: int)
    requires
        0 <= i <= text.len(),
        forall|j: int| 0 <= j < i ==> is_whitespace(text[j]),
    ensures
        leading_whitespace(text) == i + leading_whitespace(text.skip(i)),
    decreases i,
{
    if i > 0 {
        lemma_leading_whitespace_step(text.skip(1), i - 1);
        assert(text.skip(1).skip(i - 1) =~= text.skip(i));
    } else {
        assert(text.skip(0) =~= text);
    }
}

/// Classifies text.
pub fn classify_text(text: &str) -> (kind: AssetKind)
    ensures
        kind == text_kind(text@),
{
    let chars = chars_of(text);
    let mut i: usize = 0;
    while i < chars.len() && whitespace(chars[i])
        invariant
            i <= chars.len(),
            forall|j: int| 0 <= j < i ==> is_whitespace(chars@[j]),
        decreases chars.len() - i,
    {
        i += 1;
    }
    proof {
        lemma_leading_whitespace_step(chars@, i as int);
        assert(chars@.skip(i as int).len() > 0 ==> chars@.skip(i as int)[0] == chars@[i as int]);
        assert(leading_whitespace(chars@.skip(i as int)) == 0);
        assert(trim_start(text@) == chars@.skip(i as int));
    }
    if i < chars.len() && (chars[i] == '{' || chars[i] == '[') {
        return AssetKind::Json;
    }
    let marker = chars_of("# Live2D");
    proof {
        let body = chars@.skip(i as int);
        if i + marker@.len() <= chars@.len() {
            assert(body.subrange(0, marker@.len() as int) =~= chars@.subrange(
                i as int,
                i + marker@.len(),
            ));
        }
    }
    if chars_occur_at(chars.as_slice(), marker.as_slice(), i) {
        AssetKind::Mtn
    } else {
        AssetKind::Bin
    }
}

/// Classifies a payload.
pub fn classify(data: &[u8]) -> (kind: AssetKind)
    ensures
        kind == kind_of(data@),
{
    let png: [u8; 4] = [0x89, 0x50, 0x4E, 0x47];
    let moc3: [u8; 4] = [0x4D, 0x4F, 0x43, 0x33];
    let moc: [u8; 3] = [0x6D, 0x6F, 0x63];
    let riff: [u8; 4] = [0x52, 0x49, 0x46, 0x46];
    let ogg: [u8; 4] = [0x4F, 0x67, 0x67, 0x53];
    let id3: [u8; 3] = [0x49, 0x44, 0x33];
    let jpeg: [u8; 3] = [0xFF, 0xD8, 0xFF];
    proof {
        assert(png@ =~= png_magic());
        assert(moc3@ =~= moc3_magic());
        assert(moc@ =~= moc_magic());
        assert(riff@ =~= riff_magic());
        assert(ogg@ =~= ogg_magic());
        assert(id3@ =~= id3_magic());
        assert(jpeg@ =~= jpeg_magic());
    }
    if bytes_occur_at(data, png.as_slice(), 0) {
        AssetKind::Png
    } else if bytes_occur_at(data, moc3.as_slice(), 0) {
        AssetKind::Moc3
    } else if bytes_occur_at(data, moc.as_slice(), 0) {
        AssetKind::Moc
    } else if bytes_occur_at(data, riff.as_slice(), 0) {
        AssetKind::Wav
    } else if bytes_occur_at(data, ogg.as_slice(), 0) {
        AssetKind::Ogg
    } else if (data.len() >= 2 && data[0] == 0xFF && data[1] & 0xE0 == 0xE0) || bytes_occur_at(
        data,
        id3.as_slice(),
        0,
    ) {
        AssetKind::Mp3
    } else if bytes_occur_at(data, jpeg.as_slice(), 0) {
        AssetKind::Jpg
    } else {
        match text_of_bytes(data) {
            Some(text) => {
                proof {
                    encode_utf8_decode_utf8(text@);
                }
                classify_text(text)
            },
            None => AssetKind::Bin,
        }
    }
}

/// The extension under which a payload is stored.
pub fn detect_extension(data: &[u8]) -> (ext: &'static str)
    ensures
        ext@ == extension_of(kind_of(data@)),
{
    classify(data).extension()
}

} // verus!
