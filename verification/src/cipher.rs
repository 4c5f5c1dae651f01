//! The chunked keystream cipher. A payload is transformed in chunks of 1024
//! bytes; within a chunk every byte is XORed with the low byte of a state
//! that starts from the key and moves on one step per byte. The transform
//! is its own inverse.

use vstd::prelude::*;

verus! {

/// Length of a chunk: the keystream restarts from the key at every
/// multiple of it.
pub const CHUNK: usize = 1024;

/// The cipher state that follows `state`: bits 16 to 31 of
/// `2531011 + 214013 * state`. Only the low 32 bits of `state` bear on
/// them, so the step is the same whether or not the product wraps around
/// in 64 bits.
pub open spec fn next_state(state: int) -> int {
    ((2531011 + 214013 * state) / 0x10000) % 0x10000
}

/// The state after `n` steps from `key`.
pub open spec fn state_after(key: int, n: nat) -> int
    decreases n,
{
    if n == 0 {
        key
    } else {
        next_state(state_after(key, (n - 1) as nat))
    }
}

/// The byte that is XORed onto position `i` of a payload.
pub open spec fn mask_at(key: int, i: int) -> u8 {
    (state_after(key, (i % 1024 + 1) as nat) % 256) as u8
}

/// The payload `data` transformed under `key`.
pub open spec fn cipher(data: Seq<u8>, key: int) -> Seq<u8> {
    Seq::new(data.len(), |i: int| data[i] ^ mask_at(key, i))
}

fn advance(state: i64) -> (r: i64)
    ensures
        r == next_state(state as int),
        0 <= r < 0x10000,
{
    let low: i64 = state & 0xFFFF_FFFF;
    assert(0 <= low < 0x1_0000_0000) by (bit_vector)
        requires
            low == state & 0xFFFF_FFFF,
    ;
    let sum: i64 = 2531011 + 214013 * low;
    let r: i64 = ((sum >> 16) & 0xFFFF) & 0xFFFF_FFFF;
    assert(r == ((2531011 + 214013 * state) / 0x10000) % 0x10000 && 0 <= r < 0x10000) by (bit_vector)
        requires
            low == state & 0xFFFF_FFFF,
            sum == 2531011 + 214013 * low,
            r == ((sum >> 16) & 0xFFFF) & 0xFFFF_FFFF,
    ;
    r
}

/// The position within its chunk of the byte after position `i`.
proof fn lemma_next_offset(i: int)
    requires
        0 <= i,
    ensures
        (i + 1) % 1024 == if i % 1024 == 1023 {
            0
        } else {
            i % 1024 + 1
        },
{
    assert((i + 1) % 1024 == if i % 1024 == 1023 {
        0
    } else {
        i % 1024 + 1
    }) by (nonlinear_arith)
        requires
            0 <= i,
    ;
}

/// The transform of a prefix grows by the masked next byte.
proof fn lemma_cipher_take(data: Seq<u8>, key: int, i: int)
    requires
        0 <= i < data.len(),
    ensures
        cipher(data.take(i + 1), key) == cipher(data.take(i), key).push(
            data[i] ^ mask_at(key, i),
        ),
{
    assert(cipher(data.take(i + 1), key) =~= cipher(data.take(i), key).push(
        data[i] ^ mask_at(key, i),
    ));
}

/// Applies the cipher to `data` under `key`. The same call encrypts and
/// decrypts.
pub fn decrypt_lcg_xor(data: &[u8], key: i64) -> (result: Vec<u8>)
    ensures
        result@ == cipher(data@, key as int),
{
    let mut result: Vec<u8> = Vec::with_capacity(data.len());
    let mut state: i64 = key;
    let mut offset: usize = 0;
    let mut i: usize = 0;
    while i < data.len()
        invariant
            i <= data.len(),
            offset == i % 1024,
            state == state_after(key as int, offset as nat),
            result@ == cipher(data@.take(i as int), key as int),
        decreases data.len() - i,
    {
        state = advance(state);
        assert(state == state_after(key as int, (offset + 1) as nat));
        let low: u8 = (state & 0xFF) as u8;
        assert(low == (state % 256) as u8) by (bit_vector)
            requires
                0 <= state < 0x10000,
                low == (state & 0xFF) as u8,
        ;
        let byte: u8 = data[i];
        let out: u8 = low ^ byte;
        proof {
            assert(low ^ byte == byte ^ low) by (bit_vector);
            lemma_cipher_take(data@, key as int, i as int);
            lemma_next_offset(i as int);
        }
        result.push(out);
        offset += 1;
        if offset == CHUNK {
            offset = 0;
            state = key;
        }
        i += 1;
    }
    proof {
        assert(data@.take(data@.len() as int) == data@);
    }
    result
}

/// Applying the cipher twice under one key gives the payload back.
pub proof fn lemma_cipher_round_trip(data: Seq<u8>, key: int)
    ensures
        cipher(cipher(data, key), key) == data,
{
    assert forall|i: int| 0 <= i < data.len() implies cipher(cipher(data, key), key)[i]
        == data[i] by {
        let b = data[i];
        let m = mask_at(key, i);
        assert((b ^ m) ^ m == b) by (bit_vector);
    }
    assert(cipher(cipher(data, key), key) =~= data);
}

/// The keystream restarts at every chunk boundary: a payload whose first
/// part is a whole number of chunks is transformed part by part.
pub proof fn lemma_cipher_chunks(head: Seq<u8>, tail: Seq<u8>, key: int)
    requires
        head.len() % 1024 == 0,
    ensures
        cipher(head + tail, key) == cipher(head, key) + cipher(tail, key),
{
    let whole = cipher(head + tail, key);
    let parts = cipher(head, key) + cipher(tail, key);
    assert forall|i: int| 0 <= i < whole.len() implies whole[i] == parts[i] by {
        if i >= head.len() {
            assert((i - head.len()) % 1024 == i % 1024) by (nonlinear_arith)
                requires
                    head.len() % 1024 == 0,
                    i >= head.len(),
            ;
        }
    }
    assert(whole =~= parts);
}

} // verus!
