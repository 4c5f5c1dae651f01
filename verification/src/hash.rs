//! The string hash and the derivation of entry keys from it.

use crate::manifest::{ExternalConfig, SidecarView};
use vstd::prelude::*;
use vstd::string::*;

verus! {

/// The UTF-16 code units that encode one character.
pub open spec fn utf16_of_char(c: char) -> Seq<u16> {
    let cp = c as int;
    if cp < 0x10000 {
        seq![cp as u16]
    } else {
        seq![(0xD800 + (cp - 0x10000) / 0x400) as u16, (0xDC00 + (cp - 0x10000) % 0x400) as u16]
    }
}

/// The UTF-16 encoding of a string.
pub open spec fn utf16_units(s: Seq<char>) -> Seq<u16>
    decreases s.len(),
{
    if s.len() == 0 {
        Seq::empty()
    } else {
        utf16_units(s.drop_last()) + utf16_of_char(s.last())
    }
}

/// The value of `x` reduced into the range of a signed 32-bit integer.
pub open spec fn wrap_i32(x: int) -> int {
    (x + 0x8000_0000) % 0x1_0000_0000 - 0x8000_0000
}

/// The accumulator after one more code unit.
pub open spec fn hash_step(acc: int, unit: u16) -> int {
    wrap_i32(31 * acc + unit)
}

/// The hash of a sequence of code units: starting from zero, every unit
/// multiplies the accumulator by 31 and is added to it, in 32-bit
/// wraparound arithmetic.
pub open spec fn hash_units(units: Seq<u16>) -> int
    decreases units.len(),
{
    if units.len() == 0 {
        0
    } else {
        hash_step(hash_units(units.drop_last()), units.last())
    }
}

/// The hash of a string: the hash of its UTF-16 code units.
pub open spec fn string_hash(s: Seq<char>) -> int {
    hash_units(utf16_units(s))
}

fn step(acc: i32, unit: u16) -> (r: i32)
    ensures
        r == hash_step(acc as int, unit),
{
    let wide: i64 = 31 * (acc as i64) + (unit as i64);
    let r = wide as i32;
    assert(r == wrap_i32(wide as int)) by (bit_vector)
        requires r == wide as i32;
    r
}

/// Appending one unit to a sequence of units is one more step of the hash.
proof fn lemma_hash_push(units: Seq<u16>, unit: u16)
    ensures
        hash_units(units.push(unit)) == hash_step(hash_units(units), unit),
{
    assert(units.push(unit).drop_last() == units);
}

/// Feeds the code units of one character to the accumulator.
fn absorb(acc: i32, c: char, Ghost(units): Ghost<Seq<u16>>) -> (r: i32)
    requires
        acc == hash_units(units),
    ensures
        r == hash_units(units + utf16_of_char(c)),
{
    let cp: u32 = c as u32;
    if cp < 0x10000 {
        proof {
            lemma_hash_push(units, cp as u16);
            assert(units + utf16_of_char(c) == units.push(cp as u16));
        }
        step(acc, cp as u16)
    } else {
        let off: u32 = cp - 0x10000;
        let hi: u16 = (0xD800 + off / 0x400) as u16;
        let lo: u16 = (0xDC00 + off % 0x400) as u16;
        proof {
            lemma_hash_push(units, hi);
            lemma_hash_push(units.push(hi), lo);
            assert(units + utf16_of_char(c) == units.push(hi).push(lo));
        }
        let mid = step(acc, hi);
        step(mid, lo)
    }
}

/// The encoding of a prefix grows by the units of the next character.
proof fn lemma_utf16_take(s: Seq<char>, i: int)
    requires
        0 <= i < s.len(),
    ensures
        utf16_units(s.take(i + 1)) == utf16_units(s.take(i)) + utf16_of_char(s[i]),
{
    assert(s.take(i + 1).drop_last() == s.take(i));
}

/// Hashes a string as Java's `String.hashCode()` does, sign-extended to 64
/// bits.
pub fn java_hash_code(s: &str) -> (r: i64)
    ensures
        r == string_hash(s@),
{
    let mut hash: i32 = 0;
    for c in it: s.chars()
        invariant
            it.seq() == s@,
            hash == hash_units(utf16_units(s@.take(it.index() as int))),
    {
        proof {
            lemma_utf16_take(s@, it.index() as int);
        }
        hash = absorb(hash, c, Ghost(utf16_units(s@.take(it.index() as int))));
    }
    proof {
        assert(s@.take(s@.len() as int) == s@);
    }
    hash as i64
}

/// The text that is hashed into the key of an entry: the model
/// identifier and the entry name, with the two texts of the sidecar put in
/// for the variant that is keyed by it.
pub open spec fn key_material(
    model_id: Seq<char>,
    sidecar: SidecarView,
    entry_name: Seq<char>,
    is_stm: bool,
) -> Seq<char> {
    if is_stm {
        model_id + sidecar.file_id + entry_name + sidecar.meta_data
    } else {
        model_id + entry_name
    }
}

/// The key of an entry.
pub open spec fn entry_key(
    model_id: Seq<char>,
    sidecar: SidecarView,
    entry_name: Seq<char>,
    is_stm: bool,
) -> int {
    string_hash(key_material(model_id, sidecar, entry_name, is_stm))
}

/// Derives the key under which an entry is encrypted.
pub fn derive_key(model_id: &str, ext_config: &ExternalConfig, entry_name: &str, is_stm: bool) -> (key:
    i64)
    ensures
        key == entry_key(model_id@, ext_config@, entry_name@, is_stm),
{
    let mut material = String::new();
    material.append(model_id);
    if is_stm {
        material.append(ext_config.file_id.as_str());
        material.append(entry_name);
        material.append(ext_config.meta_data.as_str());
    } else {
        material.append(entry_name);
    }
    assert(material@ =~= key_material(model_id@, ext_config@, entry_name@, is_stm));
    java_hash_code(material.as_str())
}

/// The hash of the empty string is zero.
pub proof fn lemma_hash_of_empty()
    ensures
        string_hash(Seq::<char>::empty()) == 0,
{
}

/// The hash depends on the UTF-16 code units of a string alone: two strings
/// with the same code units have the same hash.
pub proof fn lemma_hash_by_units(a: Seq<char>, b: Seq<char>)
    requires
        utf16_units(a) == utf16_units(b),
    ensures
        string_hash(a) == string_hash(b),
{
}

/// A hash is a 32-bit signed value.
pub proof fn lemma_hash_range(s: Seq<char>)
    ensures
        -0x8000_0000 <= string_hash(s) < 0x8000_0000,
{
    let units = utf16_units(s);
    if units.len() > 0 {
        assert(string_hash(s) == hash_step(hash_units(units.drop_last()), units.last()));
    }
}

} // verus!
