//! XOR primitives and the single-byte XOR breaker.
//!
//! `single_char_xor` tries every key byte, scores each candidate plaintext
//! with the frequency scorer, and keeps the first strict maximum, so the
//! lowest key byte wins ties. That tie-break is part of the contract.

use vstd::prelude::*;

use crate::freq::calc_letter_freq_score;
use crate::freq::score_spec;

verus! {

/// Byte-wise XOR of two streams, truncated to the shorter one.
pub open spec fn xor_zip(a: Seq<u8>, b: Seq<u8>) -> Seq<u8> {
    Seq::new(vstd::math::min(a.len() as int, b.len() as int) as nat, |i: int| a[i] ^ b[i])
}

/// A stream XORed with one repeated key byte.
pub open spec fn xor_with(s: Seq<u8>, k: u8) -> Seq<u8> {
    Seq::new(s.len(), |i: int| s[i] ^ k)
}

/// A stream XORed with a repeating multi-byte key.
pub open spec fn repeat_xor(s: Seq<u8>, key: Seq<u8>) -> Seq<u8>
    recommends
        key.len() > 0,
{
    Seq::new(s.len(), |i: int| s[i] ^ key[i % key.len() as int])
}

/// XORs two byte streams position by position; the result is as long as the
/// shorter input.
pub fn fixed_xor(a: Vec<u8>, b: Vec<u8>) -> (r: Vec<u8>)
    ensures
        r@ == xor_zip(a@, b@),
{
    let n = if a.len() < b.len() { a.len() } else { b.len() };
    let mut r: Vec<u8> = Vec::new();
    for i in 0..n
        invariant
            n == vstd::math::min(a@.len() as int, b@.len() as int),
            r@ =~= xor_zip(a@, b@).subrange(0, i as int),
    {
        r.push(a[i] ^ b[i]);
    }
    proof {
        assert(r@ =~= xor_zip(a@, b@));
    }
    r
}

/// XOR is an involution: applying `fixed_xor` with the same key stream twice
/// returns the original stream, for equal-length streams.
pub proof fn lemma_fixed_xor_involution(a: Seq<u8>, b: Seq<u8>)
    requires
        a.len() == b.len(),
    ensures
        xor_zip(xor_zip(a, b), b) =~= a,
{
    assert forall|i: int| 0 <= i < a.len() implies xor_zip(xor_zip(a, b), b)[i] == a[i] by {
        let x = a[i];
        let y = b[i];
        assert((x ^ y) ^ y == x) by (bit_vector);
    }
}

/// XOR with one repeated key byte is an involution: decoding with the true
/// key byte returns the plaintext.
pub proof fn lemma_xor_with_involution(s: Seq<u8>, k: u8)
    ensures
        xor_with(xor_with(s, k), k) =~= s,
{
    assert forall|i: int| 0 <= i < s.len() implies xor_with(xor_with(s, k), k)[i] == s[i] by {
        let x = s[i];
        assert((x ^ k) ^ k == x) by (bit_vector);
    }
}

/// XOR with a repeating key is an involution: decoding with the true key
/// returns the plaintext.
pub proof fn lemma_repeat_xor_involution(s: Seq<u8>, key: Seq<u8>)
    requires
        key.len() > 0,
    ensures
        repeat_xor(repeat_xor(s, key), key) =~= s,
{
    assert forall|i: int| 0 <= i < s.len() implies repeat_xor(repeat_xor(s, key), key)[i]
        == s[i] by {
        let x = s[i];
        let y = key[i % key.len() as int];
        assert((x ^ y) ^ y == x) by (bit_vector);
    }
}

/// XORs a stream with a repeating key.
pub fn repeating_key_xor(data: &[u8], key: &[u8]) -> (r: Vec<u8>)
    requires
        key@.len() > 0,
    ensures
        r@ == repeat_xor(data@, key@),
{
    let mut r: Vec<u8> = Vec::new();
    let n = data.len();
    for i in 0..n
        invariant
            n == data@.len(),
            key@.len() > 0,
            r@ =~= repeat_xor(data@, key@).subrange(0, i as int),
    {
        let j = i % key.len();
        r.push(data[i] ^ key[j]);
    }
    proof {
        assert(r@ =~= repeat_xor(data@, key@));
    }
    r
}

/// The number of set bits in one byte.
pub open spec fn ones(b: u8) -> nat {
    ((b & 1) + ((b >> 1) & 1) + ((b >> 2) & 1) + ((b >> 3) & 1) + ((b >> 4) & 1) + ((b >> 5)
        & 1) + ((b >> 6) & 1) + ((b >> 7) & 1)) as nat
}

/// A byte has at most eight set bits.
pub proof fn lemma_ones_bound(b: u8)
    ensures
        ones(b) <= 8,
{
    assert((b & 1) + ((b >> 1) & 1) + ((b >> 2) & 1) + ((b >> 3) & 1) + ((b >> 4) & 1) + ((b >> 5)
        & 1) + ((b >> 6) & 1) + ((b >> 7) & 1) <= 8) by (bit_vector);
}

/// The bitwise Hamming distance of two equal-length streams: the number of
/// positions, over all bytes, where the bits differ.
pub open spec fn hamming_spec(a: Seq<u8>, b: Seq<u8>) -> nat
    recommends
        a.len() == b.len(),
    decreases a.len(),
{
    if a.len() == 0 || b.len() == 0 {
        0
    } else {
        (hamming_spec(a.drop_last(), b.drop_last()) + ones(a.last() ^ b.last())) as nat
    }
}

/// A Hamming distance never exceeds eight bits per byte.
pub proof fn lemma_hamming_bound(a: Seq<u8>, b: Seq<u8>)
    requires
        a.len() == b.len(),
    ensures
        hamming_spec(a, b) <= 8 * a.len(),
    decreases a.len(),
{
    if a.len() > 0 {
        lemma_hamming_bound(a.drop_last(), b.drop_last());
        lemma_ones_bound(a.last() ^ b.last());
    }
}

/// Counts the set bits of one byte.
fn bit_count(b: u8) -> (c: u32)
    ensures
        c == ones(b),
{
    ((b & 1) as u32) + (((b >> 1) & 1) as u32) + (((b >> 2) & 1) as u32) + (((b >> 3)
        & 1) as u32) + (((b >> 4) & 1) as u32) + (((b >> 5) & 1) as u32) + (((b >> 6)
        & 1) as u32) + (((b >> 7) & 1) as u32)
}

/// Counts the differing bits of two equal-length byte streams.
pub fn hamming_distance(string_1: &[u8], string_2: &[u8]) -> (dist: u32)
    requires
        string_1@.len() == string_2@.len(),
        string_1@.len() <= 0x0FFF_FFFF,
    ensures
        dist == hamming_spec(string_1@, string_2@),
{
    let mut dist: u32 = 0;
    let n = string_1.len();
    for i in 0..n
        invariant
            n == string_1@.len() == string_2@.len(),
            n <= 0x0FFF_FFFF,
            dist == hamming_spec(string_1@.subrange(0, i as int), string_2@.subrange(0, i as int)),
            dist <= 8 * i,
    {
        let c = bit_count(string_1[i] ^ string_2[i]);
        proof {
            let pa = string_1@.subrange(0, i as int);
            let pb = string_2@.subrange(0, i as int);
            let qa = string_1@.subrange(0, i + 1);
            let qb = string_2@.subrange(0, i + 1);
            assert(qa.drop_last() =~= pa);
            assert(qb.drop_last() =~= pb);
            lemma_ones_bound(string_1@[i as int] ^ string_2@[i as int]);
        }
        dist = dist + c;
    }
    proof {
        assert(string_1@.subrange(0, n as int) =~= string_1@);
        assert(string_2@.subrange(0, n as int) =~= string_2@);
    }
    dist
}

/// The winning key byte among candidates `0 .. n`: the one whose XOR
/// decoding scores the strict maximum, first seen (lowest byte) on ties.
pub open spec fn best_key_upto(s: Seq<u8>, n: int) -> u8
    decreases n,
{
    if n <= 1 {
        0
    } else {
        let prev = best_key_upto(s, n - 1);
        let k = (n - 1) as u8;
        if score_spec(xor_with(s, k)) > score_spec(xor_with(s, prev)) {
            k
        } else {
            prev
        }
    }
}

/// What the winner means: it is a candidate, no candidate scores above it,
/// and every lower key byte scores strictly below it.
pub proof fn lemma_best_key_upto(s: Seq<u8>, n: int)
    requires
        1 <= n <= 256,
    ensures
        0 <= best_key_upto(s, n) < n,
        forall|k: u8| k < n ==> #[trigger] score_spec(xor_with(s, k)) <= score_spec(
            xor_with(s, best_key_upto(s, n)),
        ),
        forall|k: u8| k < best_key_upto(s, n) ==> #[trigger] score_spec(xor_with(s, k)) < score_spec(
            xor_with(s, best_key_upto(s, n)),
        ),
    decreases n,
{
    if n > 1 {
        lemma_best_key_upto(s, n - 1);
    }
}

/// XORs a stream with one key byte.
pub fn xor_with_byte(s: &[u8], k: u8) -> (r: Vec<u8>)
    ensures
        r@ == xor_with(s@, k),
{
    let mut r: Vec<u8> = Vec::new();
    let n = s.len();
    for i in 0..n
        invariant
            n == s@.len(),
            r@ =~= xor_with(s@, k).subrange(0, i as int),
    {
        r.push(s[i] ^ k);
    }
    proof {
        assert(r@ =~= xor_with(s@, k));
    }
    r
}

/// Finds the single key byte whose XOR decoding of `xor_bytes` scores
/// highest; the lowest such byte wins ties.
pub fn single_char_xor(xor_bytes: &[u8]) -> (key: u8)
    ensures
        key == best_key_upto(xor_bytes@, 256),
        forall|k: u8| #[trigger] score_spec(xor_with(xor_bytes@, k)) <= score_spec(
            xor_with(xor_bytes@, key),
        ),
{
    let first = xor_with_byte(xor_bytes, 0);
    let mut best_score: u128 = calc_letter_freq_score(first.as_slice());
    let mut key: u8 = 0;
    for n in 1..256usize
        invariant
            key == best_key_upto(xor_bytes@, n as int),
            best_score == score_spec(xor_with(xor_bytes@, key)),
    {
        let k = n as u8;
        let decoded = xor_with_byte(xor_bytes, k);
        let string_score = calc_letter_freq_score(decoded.as_slice());
        if string_score > best_score {
            best_score = string_score;
            key = k;
        }
    }
    proof {
        lemma_best_key_upto(xor_bytes@, 256);
    }
    key
}

} // verus!
