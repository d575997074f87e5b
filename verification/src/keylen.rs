//! Repeating-key XOR cryptanalysis: key-length estimation by normalized
//! Hamming distance, column transposition, and key recovery.
//!
//! For a candidate length `l` the ciphertext is cut into consecutive blocks
//! of `l` bytes; the Hamming distances of all adjacent full block pairs are
//! summed and the sum is divided by `l` times (pairs + 1). The `+ 1` is a
//! deliberate smoothing convention of this heuristic, kept as it is. The
//! average is held as an exact fraction (numerator, denominator) and two
//! averages compare by cross-multiplication, so no rounding can tip a
//! borderline choice. The smallest candidate with the smallest average wins.

use vstd::prelude::*;

use crate::codec::push_char;
use crate::errors::XorError;
use crate::xor::best_key_upto;
use crate::xor::hamming_distance;
use crate::xor::hamming_spec;
use crate::xor::lemma_hamming_bound;
use crate::xor::single_char_xor;

verus! {

/// Inputs longer than this are rejected, so that distance sums fit in 64
/// bits.
pub const MAX_INPUT_LEN: u64 = 0x1000_0000_0000_0000;

/// Candidate key lengths larger than this are rejected, so that one block's
/// Hamming distance fits in 32 bits.
pub const MAX_KEY_LEN: u64 = 0x0FFF_FFFF;

/// Block `i` of `s` when cut into consecutive blocks of `l` bytes.
pub open spec fn block(s: Seq<u8>, l: int, i: int) -> Seq<u8> {
    s.subrange(i * l, (i + 1) * l)
}

/// How many adjacent pairs of full `l`-byte blocks `s` holds.
pub open spec fn pairs_count(len: int, l: int) -> int
    recommends
        l >= 1,
{
    if len / l >= 2 {
        len / l - 1
    } else {
        0
    }
}

/// The sum of the Hamming distances of the first `n` adjacent block pairs.
pub open spec fn dist_sum(s: Seq<u8>, l: int, n: int) -> nat
    decreases n,
{
    if n <= 0 {
        0
    } else {
        (dist_sum(s, l, n - 1) + hamming_spec(block(s, l, n - 1), block(s, l, n))) as nat
    }
}

/// The numerator of the average normalized edit distance at length `l`.
pub open spec fn avg_num(s: Seq<u8>, l: int) -> nat {
    dist_sum(s, l, pairs_count(s.len() as int, l))
}

/// The denominator of the average normalized edit distance at length `l`:
/// `l` (the normalization) times pairs + 1 (the smoothing convention).
pub open spec fn avg_den(s: Seq<u8>, l: int) -> nat
    recommends
        l >= 1,
{
    (l * (pairs_count(s.len() as int, l) + 1)) as nat
}

/// The average at `l1` is strictly smaller than the average at `l2`,
/// compared exactly by cross-multiplication.
pub open spec fn avg_lt(s: Seq<u8>, l1: int, l2: int) -> bool {
    avg_num(s, l1) * avg_den(s, l2) < avg_num(s, l2) * avg_den(s, l1)
}

/// Adjacent blocks `i` and `i + 1` are both full `l`-byte blocks when the
/// stream is long enough.
proof fn lemma_block_len(s: Seq<u8>, l: int, i: int)
    requires
        l >= 1,
        i >= 0,
        (i + 2) * l <= s.len(),
    ensures
        0 <= i * l <= (i + 1) * l <= (i + 2) * l <= s.len(),
        block(s, l, i).len() == l,
        block(s, l, i + 1).len() == l,
{
    assert(0 <= i * l && i * l + l == (i + 1) * l && (i + 1) * l + l == (i + 2) * l)
        by (nonlinear_arith)
        requires l >= 1 && i >= 0;
}

/// The average normalized edit distance at `key_size`, as an exact fraction:
/// the summed pairwise Hamming distances over `key_size * (pairs + 1)`.
pub fn calc_avg_edit_dist(key_size: usize, txt_bytes: &[u8]) -> (r: (u64, u64))
    requires
        1 <= key_size <= MAX_KEY_LEN,
        txt_bytes@.len() <= MAX_INPUT_LEN,
    ensures
        r.0 == avg_num(txt_bytes@, key_size as int),
        r.1 == avg_den(txt_bytes@, key_size as int),
        r.1 > 0,
{
    let len = txt_bytes.len();
    let nb = len / key_size;
    let pairs = if nb >= 2 { nb - 1 } else { 0 };
    proof {
        vstd::arithmetic::div_mod::lemma_fundamental_div_mod(len as int, key_size as int);
        vstd::arithmetic::div_mod::lemma_mod_bound(len as int, key_size as int);
        assert(pairs == pairs_count(len as int, key_size as int));
    }
    let mut sum: u64 = 0;
    let ghost s = txt_bytes@;
    let ghost l = key_size as int;
    proof {
        if nb >= 2 {
            assert((pairs + 1) * l == nb * l && nb * l <= len) by (nonlinear_arith)
                requires
                    pairs + 1 == nb,
                    l * (nb as int) + (len as int) % l == len as int,
                    (len as int) % l >= 0,
            ;
        }
    }
    for i in 0..pairs
        invariant
            s == txt_bytes@,
            l == key_size as int,
            1 <= key_size <= MAX_KEY_LEN,
            len == s.len() <= MAX_INPUT_LEN,
            pairs == pairs_count(len as int, l),
            (pairs + 1) * l <= len || pairs == 0,
            sum == dist_sum(s, l, i as int),
            sum <= 8 * (i * l),
            i * l <= len,
    {
        proof {
            assert((i + 2) * l <= (pairs + 1) * l && (i + 1) * l <= len) by (nonlinear_arith)
                requires
                    i + 2 <= pairs + 1,
                    l >= 1,
                    (pairs + 1) * l <= len,
            ;
            lemma_block_len(s, l, i as int);
        }
        let block1 = &txt_bytes[i * key_size..(i + 1) * key_size];
        let block2 = &txt_bytes[(i + 1) * key_size..(i + 2) * key_size];
        let d = hamming_distance(block1, block2);
        proof {
            assert(block1@ == block(s, l, i as int));
            assert(block2@ == block(s, l, i + 1));
            lemma_hamming_bound(block1@, block2@);
            assert(sum + d <= 8 * ((i + 1) * l) && 8 * ((i + 1) * l) <= 8 * len)
                by (nonlinear_arith)
                requires
                    sum <= 8 * (i * l),
                    d <= 8 * l,
                    l >= 1,
                    i >= 0,
                    (i + 1) * l <= len,
            ;
        }
        sum = sum + d as u64;
    }
    proof {
        assert(l * (pairs + 1) > 0 && l * (pairs + 1) == (key_size as u64) * ((pairs as u64)
            + 1)) by (nonlinear_arith)
            requires l == key_size as int && l >= 1 && pairs >= 0;
        if nb >= 2 {
            assert(l * (pairs + 1) <= len) by (nonlinear_arith)
                requires
                    pairs + 1 == nb,
                    l * (nb as int) + (len as int) % l == len as int,
                    (len as int) % l >= 0,
            ;
        }
    }
    let den: u64 = (key_size as u64) * ((pairs as u64) + 1);
    (sum, den)
}

/// The winning key length among candidates `min_len .. n`: the one with the
/// strictly smallest average normalized edit distance, smallest length first
/// on ties.
pub open spec fn best_len_upto(s: Seq<u8>, min_len: int, n: int) -> int
    decreases n - min_len,
{
    if n <= min_len + 1 {
        min_len
    } else {
        let prev = best_len_upto(s, min_len, n - 1);
        if avg_lt(s, n - 1, prev) {
            n - 1
        } else {
            prev
        }
    }
}

/// Every candidate length has a positive denominator.
proof fn lemma_avg_den_pos(s: Seq<u8>, l: int)
    requires
        l >= 1,
    ensures
        avg_den(s, l) > 0,
{
    let p = pairs_count(s.len() as int, l);
    assert(p >= 0);
    assert(l * (p + 1) > 0) by (nonlinear_arith)
        requires l >= 1 && p >= 0;
}

/// Strict-then-weak transitivity of the exact fraction comparison:
/// `n1/d1 < n2/d2` and `n2/d2 <= n3/d3` give `n1/d1 < n3/d3`.
proof fn lemma_frac_lt_le_trans(n1: nat, d1: nat, n2: nat, d2: nat, n3: nat, d3: nat)
    by (nonlinear_arith)
    requires
        d1 > 0,
        d2 > 0,
        d3 > 0,
        n1 * d2 < n2 * d1,
        n2 * d3 <= n3 * d2,
    ensures
        n1 * d3 < n3 * d1,
{
}

/// The strict fraction comparison carries over a weakly smaller left side.
proof fn lemma_avg_lt_le_trans(s: Seq<u8>, a: int, b: int, c: int)
    requires
        a >= 1,
        b >= 1,
        c >= 1,
        avg_lt(s, a, b),
        !avg_lt(s, c, b),
    ensures
        avg_lt(s, a, c),
{
    lemma_avg_den_pos(s, a);
    lemma_avg_den_pos(s, b);
    lemma_avg_den_pos(s, c);
    lemma_frac_lt_le_trans(
        avg_num(s, a),
        avg_den(s, a),
        avg_num(s, b),
        avg_den(s, b),
        avg_num(s, c),
        avg_den(s, c),
    );
}

/// What the winner means: it is a candidate, no candidate's average is
/// strictly below its own, and its average is strictly below the average of
/// every shorter candidate.
pub proof fn lemma_best_len_upto(s: Seq<u8>, min_len: int, n: int)
    requires
        1 <= min_len < n,
    ensures
        min_len <= best_len_upto(s, min_len, n) < n,
        forall|l: int| min_len <= l < n ==> !avg_lt(s, l, best_len_upto(s, min_len, n)),
        forall|l: int|
            min_len <= l < best_len_upto(s, min_len, n) ==> avg_lt(
                s,
                best_len_upto(s, min_len, n),
                l,
            ),
    decreases n - min_len,
{
    if n > min_len + 1 {
        lemma_best_len_upto(s, min_len, n - 1);
        let prev = best_len_upto(s, min_len, n - 1);
        let best = best_len_upto(s, min_len, n);
        if avg_lt(s, n - 1, prev) {
            assert(best == n - 1);
            assert forall|l: int| min_len <= l < n - 1 implies avg_lt(s, best, l) && !avg_lt(
                s,
                l,
                best,
            ) by {
                lemma_avg_lt_le_trans(s, n - 1, prev, l);
            }
        }
    }
}

/// Estimates the most likely repeating-key length of `cipher` among the
/// candidates `min_len .. max_len`. An input shorter than `min_len` is
/// rejected as insufficient; any other input gets exactly one answer: the
/// candidate with the smallest average normalized edit distance, the
/// smallest such candidate on ties.
pub fn estimate_key_length(cipher: &[u8], min_len: usize, max_len: usize) -> (r: Result<
    usize,
    XorError,
>)
    requires
        1 <= min_len < max_len,
        max_len <= MAX_KEY_LEN,
        cipher@.len() <= MAX_INPUT_LEN,
    ensures
        r is Err <==> cipher@.len() < min_len,
        r is Err ==> r == Err::<usize, XorError>(XorError::InsufficientInput),
        r matches Ok(l) ==> min_len <= l < max_len && l == best_len_upto(
            cipher@,
            min_len as int,
            max_len as int,
        ),
{
    if cipher.len() < min_len {
        return Err(XorError::InsufficientInput);
    }
    let (mut best_num, mut best_den) = calc_avg_edit_dist(min_len, cipher);
    let mut best: usize = min_len;
    let ghost s = cipher@;
    for n in (min_len + 1)..max_len
        invariant
            s == cipher@,
            1 <= min_len < max_len,
            max_len <= MAX_KEY_LEN,
            s.len() <= MAX_INPUT_LEN,
            min_len <= best < n,
            best == best_len_upto(s, min_len as int, n as int),
            best_num == avg_num(s, best as int),
            best_den == avg_den(s, best as int),
    {
        let (num, den) = calc_avg_edit_dist(n, cipher);
        proof {
            assert((num as int) * (best_den as int) <= (0xFFFF_FFFF_FFFF_FFFFu64 as int) * (
            0xFFFF_FFFF_FFFF_FFFFu64 as int)) by (nonlinear_arith)
                requires num <= 0xFFFF_FFFF_FFFF_FFFFu64 && best_den <= 0xFFFF_FFFF_FFFF_FFFFu64;
            assert((best_num as int) * (den as int) <= (0xFFFF_FFFF_FFFF_FFFFu64 as int) * (
            0xFFFF_FFFF_FFFF_FFFFu64 as int)) by (nonlinear_arith)
                requires best_num <= 0xFFFF_FFFF_FFFF_FFFFu64 && den <= 0xFFFF_FFFF_FFFF_FFFFu64;
        }
        if (num as u128) * (best_den as u128) < (best_num as u128) * (den as u128) {
            best = n;
            best_num = num;
            best_den = den;
        }
    }
    Ok(best)
}

/// Column `j` of `s` cut into full `l`-byte blocks: the bytes at offset `j`
/// of every full block, in block order.
pub open spec fn col_spec(s: Seq<u8>, l: int, j: int) -> Seq<u8>
    recommends
        l >= 1,
        0 <= j < l,
{
    Seq::new((s.len() as int / l) as nat, |i: int| s[i * l + j])
}

/// Splits `cipher` into `key_len` column sub-streams: column `j` collects
/// the byte at offset `j` from every full `key_len`-sized block; a trailing
/// partial block is discarded.
pub fn transpose_blocks(cipher: &[u8], key_len: usize) -> (cols: Vec<Vec<u8>>)
    requires
        key_len >= 1,
    ensures
        cols@.len() == key_len,
        forall|j: int| 0 <= j < key_len ==> #[trigger] cols@[j]@ == col_spec(
            cipher@,
            key_len as int,
            j,
        ),
{
    let len = cipher.len();
    let nb = len / key_len;
    proof {
        vstd::arithmetic::div_mod::lemma_fundamental_div_mod(len as int, key_len as int);
        vstd::arithmetic::div_mod::lemma_mod_bound(len as int, key_len as int);
        assert((key_len as int) * (nb as int) == (nb as int) * (key_len as int))
            by (nonlinear_arith);
    }
    let mut cols: Vec<Vec<u8>> = Vec::new();
    let ghost s = cipher@;
    let ghost l = key_len as int;
    for j in 0..key_len
        invariant
            s == cipher@,
            l == key_len as int,
            key_len >= 1,
            len == s.len(),
            nb == len as int / l,
            nb * l <= len,
            cols@.len() == j,
            forall|t: int| 0 <= t < j ==> #[trigger] cols@[t]@ == col_spec(s, l, t),
    {
        let mut col: Vec<u8> = Vec::new();
        for i in 0..nb
            invariant
                s == cipher@,
                l == key_len as int,
                key_len >= 1,
                len == s.len(),
                nb == len as int / l,
                nb * l <= len,
                j < key_len,
                col@ =~= col_spec(s, l, j as int).subrange(0, i as int),
        {
            proof {
                assert((i + 1) * l <= nb * l) by (nonlinear_arith)
                    requires i + 1 <= nb && l >= 1;
                assert(i * l + j < (i + 1) * l) by (nonlinear_arith)
                    requires l >= 1 && j < l;
                assert(i * l >= 0) by (nonlinear_arith)
                    requires i >= 0 && l >= 1;
            }
            col.push(cipher[i * key_len + j]);
        }
        proof {
            assert(col@ =~= col_spec(s, l, j as int));
        }
        cols.push(col);
    }
    cols
}

/// Recovers the repeating XOR key of `cipher`: estimates the key length over
/// the candidates `2 .. 40`, then solves each column independently as a
/// single-byte XOR cipher. The recovered key bytes are returned in column
/// order. An input shorter than two bytes is rejected as insufficient.
pub fn break_repeating_key_xor(cipher: &[u8]) -> (r: Result<Vec<u8>, XorError>)
    requires
        cipher@.len() <= MAX_INPUT_LEN,
    ensures
        r is Err <==> cipher@.len() < 2,
        r is Err ==> r == Err::<Vec<u8>, XorError>(XorError::InsufficientInput),
        r matches Ok(key) ==> {
            let l = best_len_upto(cipher@, 2, 40);
            key@.len() == l && 2 <= l < 40 && forall|j: int|
                0 <= j < l ==> key@[j] == best_key_upto(col_spec(cipher@, l, j), 256)
        },
{
    let key_sz = match estimate_key_length(cipher, 2, 40) {
        Ok(l) => l,
        Err(e) => {
            return Err(e);
        },
    };
    let cols = transpose_blocks(cipher, key_sz);
    let mut key_vector: Vec<u8> = Vec::new();
    let ghost s = cipher@;
    let ghost l = key_sz as int;
    for j in 0..key_sz
        invariant
            s == cipher@,
            l == key_sz as int,
            2 <= key_sz < 40,
            l == best_len_upto(s, 2, 40),
            cols@.len() == key_sz,
            forall|t: int| 0 <= t < key_sz ==> #[trigger] cols@[t]@ == col_spec(s, l, t),
            key_vector@.len() == j,
            forall|t: int|
                0 <= t < j ==> key_vector@[t] == best_key_upto(
                    #[trigger] col_spec(s, l, t),
                    256,
                ),
    {
        let key_j = single_char_xor(cols[j].as_slice());
        key_vector.push(key_j);
    }
    Ok(key_vector)
}

/// Recovers the repeating XOR key of `cipher` and renders it as a character
/// string, one character per key byte. An input shorter than two bytes is
/// rejected as insufficient.
pub fn recover_key(cipher: &[u8]) -> (r: Result<String, XorError>)
    requires
        cipher@.len() <= MAX_INPUT_LEN,
    ensures
        r is Err <==> cipher@.len() < 2,
        r is Err ==> r == Err::<String, XorError>(XorError::InsufficientInput),
        r matches Ok(key) ==> {
            let l = best_len_upto(cipher@, 2, 40);
            key@.len() == l && 2 <= l < 40 && forall|j: int|
                0 <= j < l ==> key@[j] == best_key_upto(col_spec(cipher@, l, j), 256) as char
        },
{
    let key_vector = match break_repeating_key_xor(cipher) {
        Ok(v) => v,
        Err(e) => {
            return Err(e);
        },
    };
    let mut key = String::new();
    let n = key_vector.len();
    let ghost l = best_len_upto(cipher@, 2, 40);
    for j in 0..n
        invariant
            n == key_vector@.len() == l,
            2 <= l < 40,
            l == best_len_upto(cipher@, 2, 40),
            forall|t: int|
                0 <= t < n ==> key_vector@[t] == best_key_upto(
                    #[trigger] col_spec(cipher@, l, t),
                    256,
                ),
            key@.len() == j,
            forall|t: int| 0 <= t < j ==> key@[t] == key_vector@[t] as char,
    {
        let c = key_vector[j] as char;
        push_char(&mut key, c);
    }
    Ok(key)
}

} // verus!
