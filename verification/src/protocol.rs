//! What the shell needs to serve the files of a model: the path that a
//! request names, the media type of a file, and the totals of a motion.

use crate::outside::{percent_decode, utf8_lossy};
use crate::text::{chars_occur_at, chars_of, has_prefix};
use vstd::prelude::*;
use vstd::string::*;
use vstd::utf8::{
    decode_utf8, encode_utf8, encode_utf8_decode_utf8, encode_utf8_valid_utf8, valid_utf8,
};

verus! {

/// What follows the origin of the model protocol in `uri`: what stands
/// behind `model://localhost/`, or else behind `model://localhost`;
/// nothing where `uri` begins with neither.
pub open spec fn uri_tail(uri: Seq<char>) -> Seq<char> {
    if has_prefix(uri, "model://localhost/"@) {
        uri.skip("model://localhost/"@.len() as int)
    } else if has_prefix(uri, "model://localhost"@) {
        uri.skip("model://localhost"@.len() as int)
    } else {
        Seq::empty()
    }
}

/// The value of a hexadecimal digit, of either case.
pub open spec fn hex_value(byte: u8) -> Option<int> {
    if 0x30 <= byte <= 0x39 {
        Some(byte - 0x30)
    } else if 0x61 <= byte <= 0x66 {
        Some(byte - 0x61 + 10)
    } else if 0x41 <= byte <= 0x46 {
        Some(byte - 0x41 + 10)
    } else {
        None
    }
}

/// The bytes percent-decoded: every `%` that two hexadecimal digits follow
/// becomes, with them, the byte that they write; every other byte stays.
pub open spec fn percent_decoded(bytes: Seq<u8>) -> Seq<u8>
    decreases bytes.len(),
{
    if bytes.len() == 0 {
        Seq::empty()
    } else if bytes[0] == 0x25 && bytes.len() >= 3 && hex_value(bytes[1]) is Some && hex_value(
        bytes[2],
    ) is Some {
        seq![(hex_value(bytes[1]).unwrap() * 16 + hex_value(bytes[2]).unwrap()) as u8]
            + percent_decoded(bytes.skip(3))
    } else {
        seq![bytes[0]] + percent_decoded(bytes.skip(1))
    }
}

/// The path that the URI of a request names: its tail, percent-decoded
/// and read as text.
pub open spec fn requested_path(uri: Seq<char>) -> Seq<char> {
    utf8_lossy(percent_decoded(encode_utf8(uri_tail(uri))))
}

/// Bytes that hold no `%` are their own percent-decoding.
pub proof fn lemma_percent_free(bytes: Seq<u8>)
    requires
        forall|i: int| 0 <= i < bytes.len() ==> bytes[i] != 0x25,
    ensures
        percent_decoded(bytes) == bytes,
    decreases bytes.len(),
{
    if bytes.len() > 0 {
        let rest = bytes.skip(1);
        assert forall|i: int| 0 <= i < rest.len() implies rest[i] != 0x25 by {
            assert(rest[i] == bytes[i + 1]);
        }
        lemma_percent_free(rest);
        assert(seq![bytes[0]] + rest =~= bytes);
    }
}

/// The path of the file that a request of the model protocol names. Where
/// the decoded bytes are valid UTF-8 the path is the text they encode; so
/// a tail that holds no `%` is itself the path.
pub fn model_path(uri: &str) -> (path: String)
    ensures
        path@ == requested_path(uri@),
        valid_utf8(percent_decoded(encode_utf8(uri_tail(uri@)))) ==> path@ == decode_utf8(
            percent_decoded(encode_utf8(uri_tail(uri@))),
        ),
        (forall|i: int|
            0 <= i < encode_utf8(uri_tail(uri@)).len() ==> encode_utf8(uri_tail(uri@))[i] != 0x25)
            ==> path@ == uri_tail(uri@),
{
    proof {
        let bytes = encode_utf8(uri_tail(uri@));
        if forall|i: int| 0 <= i < bytes.len() ==> bytes[i] != 0x25 {
            lemma_percent_free(bytes);
            encode_utf8_valid_utf8(uri_tail(uri@));
            encode_utf8_decode_utf8(uri_tail(uri@));
        }
    }
    let chars = chars_of(uri);
    let with_slash = chars_of("model://localhost/");
    let without_slash = chars_of("model://localhost");
    let skipped: usize = if chars_occur_at(chars.as_slice(), with_slash.as_slice(), 0) {
        with_slash.len()
    } else if chars_occur_at(chars.as_slice(), without_slash.as_slice(), 0) {
        without_slash.len()
    } else {
        chars.len()
    };
    let tail = uri.substring_char(skipped, chars.len());
    proof {
        assert(uri@.subrange(skipped as int, uri@.len() as int) =~= uri@.skip(skipped as int));
        assert(uri@.skip(uri@.len() as int) =~= Seq::<char>::empty());
    }
    percent_decode(tail)
}

/// The media type under which a file with the given extension is served.
pub open spec fn media_type_of(extension: Option<Seq<char>>) -> Seq<char> {
    match extension {
        Some(ext) => if ext == "json"@ {
            "application/json"@
        } else if ext == "moc3"@ || ext == "moc"@ {
            "application/octet-stream"@
        } else if ext == "png"@ {
            "image/png"@
        } else if ext == "jpg"@ || ext == "jpeg"@ {
            "image/jpeg"@
        } else if ext == "wav"@ {
            "audio/wav"@
        } else if ext == "ogg"@ {
            "audio/ogg"@
        } else if ext == "mp3"@ {
            "audio/mpeg"@
        } else if ext == "mtn"@ {
            "text/plain"@
        } else {
            "application/octet-stream"@
        },
        None => "application/octet-stream"@,
    }
}

/// The text of an optional string slice.
pub open spec fn slice_view(text: Option<&str>) -> Option<Seq<char>> {
    match text {
        Some(s) => Some(s@),
        None => None,
    }
}

fn same_text(a: &str, b: &str) -> (r: bool)
    ensures
        r == (a@ == b@),
{
    a.to_owned() == b.to_owned()
}

/// The media type under which a file with the given extension is served.
pub fn media_type(extension: Option<&str>) -> (mime: &'static str)
    ensures
        mime@ == media_type_of(slice_view(extension)),
{
    match extension {
        Some(ext) => {
            if same_text(ext, "json") {
                "application/json"
            } else if same_text(ext, "moc3") || same_text(ext, "moc") {
                "application/octet-stream"
            } else if same_text(ext, "png") {
                "image/png"
            } else if same_text(ext, "jpg") || same_text(ext, "jpeg") {
                "image/jpeg"
            } else if same_text(ext, "wav") {
                "audio/wav"
            } else if same_text(ext, "ogg") {
                "audio/ogg"
            } else if same_text(ext, "mp3") {
                "audio/mpeg"
            } else if same_text(ext, "mtn") {
                "text/plain"
            } else {
                "application/octet-stream"
            }
        },
        None => "application/octet-stream",
    }
}

/// How a file that the user picked is imported.
#[derive(Clone, Copy, Debug, PartialEq, Eq, Structural)]
pub enum ImportKind {
    /// A package: it is extracted.
    Package,
    /// A model descriptor: it is taken as it is.
    Descriptor,
    /// Neither: the import is refused.
    Unsupported,
}

/// How a file with the given extension is imported.
pub open spec fn import_kind_of(extension: Option<Seq<char>>) -> ImportKind {
    match extension {
        Some(ext) => if ext == "lpk"@ {
            ImportKind::Package
        } else if ext == "json"@ {
            ImportKind::Descriptor
        } else {
            ImportKind::Unsupported
        },
        None => ImportKind::Unsupported,
    }
}

/// Decides by its extension how a file is imported.
pub fn import_kind(extension: Option<&str>) -> (kind: ImportKind)
    ensures
        kind == import_kind_of(slice_view(extension)),
{
    match extension {
        Some(ext) => {
            if same_text(ext, "lpk") {
                ImportKind::Package
            } else if same_text(ext, "json") {
                ImportKind::Descriptor
            } else {
                ImportKind::Unsupported
            }
        },
        None => ImportKind::Unsupported,
    }
}

/// The points and segments of a motion, or of a part of one.
pub struct Totals {
    pub points: nat,
    pub segments: nat,
}

/// The sum of two totals.
pub open spec fn plus(a: Totals, b: Totals) -> Totals {
    Totals { points: a.points + b.points, segments: a.segments + b.segments }
}

/// The number of values of a curve from position `at` on.
pub open spec fn left(values: Seq<i64>, at: int) -> nat {
    if 0 <= at < values.len() {
        (values.len() - at) as nat
    } else {
        0
    }
}

/// What the segments of a curve hold from position `at` on. A segment
/// begins with its kind: kinds 0, 2 and 3 take three values and give one
/// point, kind 1 takes seven values and gives three points; any other kind
/// ends the curve.
pub open spec fn walk(values: Seq<i64>, at: int) -> Totals
    decreases left(values, at),
{
    if at < 0 || at >= values.len() {
        Totals { points: 0, segments: 0 }
    } else if values[at] == 0 || values[at] == 2 || values[at] == 3 {
        plus(Totals { points: 1, segments: 1 }, walk(values, at + 3))
    } else if values[at] == 1 {
        plus(Totals { points: 3, segments: 1 }, walk(values, at + 7))
    } else {
        Totals { points: 0, segments: 0 }
    }
}

/// The totals of one curve. A curve of fewer than two values holds
/// nothing; any other begins with a point, and its segments follow from
/// the third value on.
pub open spec fn curve_totals(values: Seq<i64>) -> Totals {
    if values.len() < 2 {
        Totals { points: 0, segments: 0 }
    } else {
        plus(Totals { points: 1, segments: 0 }, walk(values, 2))
    }
}

/// The totals of the curves of a motion.
pub open spec fn motion_totals_of(curves: Seq<Seq<i64>>) -> Totals
    decreases curves.len(),
{
    if curves.len() == 0 {
        Totals { points: 0, segments: 0 }
    } else {
        plus(motion_totals_of(curves.drop_last()), curve_totals(curves.last()))
    }
}

/// The totals fit into two 64-bit counters.
pub open spec fn countable(totals: Totals) -> bool {
    totals.points <= u64::MAX && totals.segments <= u64::MAX
}

/// The curves of a motion, each the values of its segments.
pub open spec fn curves_view(curves: Seq<Vec<i64>>) -> Seq<Seq<i64>> {
    Seq::new(curves.len(), |i: int| curves[i]@)
}

/// Adds the totals of one curve to `points` and `segments`. Gives nothing
/// where a sum does not fit.
fn add_curve(values: &[i64], points: u64, segments: u64) -> (sum: Option<(u64, u64)>)
    ensures
        match sum {
            Some((p, s)) => p == points + curve_totals(values@).points && s == segments
                + curve_totals(values@).segments,
            None => points + curve_totals(values@).points > u64::MAX || segments + curve_totals(
                values@,
            ).segments > u64::MAX,
        },
{
    if values.len() < 2 {
        return Some((points, segments));
    }
    let mut p: u64 = match points.checked_add(1) {
        Some(p) => p,
        None => {
            return None;
        },
    };
    let mut s: u64 = segments;
    let mut at: usize = 2;
    while at < values.len()
        invariant
            2 <= at <= values.len(),
            p + walk(values@, at as int).points == points + curve_totals(values@).points,
            s + walk(values@, at as int).segments == segments + curve_totals(values@).segments,
        decreases values.len() - at,
    {
        let kind: i64 = values[at];
        let (step, gain): (usize, u64) = if kind == 0 || kind == 2 || kind == 3 {
            (3, 1)
        } else if kind == 1 {
            (7, 3)
        } else {
            return Some((p, s));
        };
        proof {
            let nothing = Totals { points: 0, segments: 0 };
            assert(walk(values@, at as int) == plus(
                Totals { points: gain as nat, segments: 1 },
                walk(values@, at + step),
            ));
            assert(walk(values@, values@.len() as int) == nothing);
            if values.len() - at <= step {
                assert(walk(values@, at + step) == nothing);
            }
        }
        p = match p.checked_add(gain) {
            Some(p) => p,
            None => {
                return None;
            },
        };
        s = match s.checked_add(1) {
            Some(s) => s,
            None => {
                return None;
            },
        };
        if values.len() - at <= step {
            at = values.len();
        } else {
            at += step;
        }
    }
    Some((p, s))
}

/// The totals of a prefix of the curves do not exceed those of all.
proof fn lemma_totals_grow(curves: Seq<Seq<i64>>, n: int)
    requires
        0 <= n <= curves.len(),
    ensures
        motion_totals_of(curves.take(n)).points <= motion_totals_of(curves).points,
        motion_totals_of(curves.take(n)).segments <= motion_totals_of(curves).segments,
    decreases curves.len() - n,
{
    if n < curves.len() {
        lemma_totals_grow(curves, n + 1);
        assert(curves.take(n + 1).drop_last() =~= curves.take(n));
    } else {
        assert(curves.take(n) =~= curves);
    }
}

/// Counts the points and the segments of a motion from the segment values
/// of its curves. Gives nothing where a total does not fit into 64 bits.
pub fn motion_totals(curves: &Vec<Vec<i64>>) -> (totals: Option<(u64, u64)>)
    ensures
        match totals {
            Some((points, segments)) => points == motion_totals_of(curves_view(curves@)).points
                && segments == motion_totals_of(curves_view(curves@)).segments,
            None => !countable(motion_totals_of(curves_view(curves@))),
        },
{
    let ghost all = curves_view(curves@);
    let mut points: u64 = 0;
    let mut segments: u64 = 0;
    let mut i: usize = 0;
    assert(all.take(0) =~= Seq::<Seq<i64>>::empty());
    while i < curves.len()
        invariant
            i <= curves.len(),
            all == curves_view(curves@),
            points == motion_totals_of(all.take(i as int)).points,
            segments == motion_totals_of(all.take(i as int)).segments,
        decreases curves.len() - i,
    {
        proof {
            assert(all.take(i + 1).drop_last() =~= all.take(i as int));
            assert(all.take(i + 1).last() == curves@[i as int]@);
            lemma_totals_grow(all, i + 1);
        }
        match add_curve(curves[i].as_slice(), points, segments) {
            Some((p, s)) => {
                points = p;
                segments = s;
            },
            None => {
                return None;
            },
        }
        i += 1;
    }
    proof {
        assert(all.take(all.len() as int) =~= all);
    }
    Some((points, segments))
}

} // verus!
