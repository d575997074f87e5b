//! English letter-frequency scoring of byte streams.
//!
//! Each byte in `a..=z` or `A..=Z` (case-insensitive) and each space adds the
//! weight of its class; every other byte adds nothing. Weights are the usual
//! English relative frequencies, scaled by 100000 so that scores are exact
//! integers: a score is a sum of nonnegative integer weights and two scores
//! compare exactly, with no rounding.

use vstd::prelude::*;

verus! {

/// The scaled weight of letter class `i` (0 = 'a' .. 25 = 'z').
pub open spec fn alpha_weight(i: int) -> u64 {
    if i == 0 { 8167 }        // a
    else if i == 1 { 1492 }   // b
    else if i == 2 { 2782 }   // c
    else if i == 3 { 4253 }   // d
    else if i == 4 { 12702 }  // e
    else if i == 5 { 2228 }   // f
    else if i == 6 { 2015 }   // g
    else if i == 7 { 6094 }   // h
    else if i == 8 { 6966 }   // i
    else if i == 9 { 153 }    // j
    else if i == 10 { 772 }   // k
    else if i == 11 { 4025 }  // l
    else if i == 12 { 2406 }  // m
    else if i == 13 { 6749 }  // n
    else if i == 14 { 7507 }  // o
    else if i == 15 { 1929 }  // p
    else if i == 16 { 95 }    // q
    else if i == 17 { 5987 }  // r
    else if i == 18 { 6327 }  // s
    else if i == 19 { 9056 }  // t
    else if i == 20 { 2758 }  // u
    else if i == 21 { 978 }   // v
    else if i == 22 { 2360 }  // w
    else if i == 23 { 150 }   // x
    else if i == 24 { 1974 }  // y
    else if i == 25 { 74 }    // z
    else { 0 }
}

/// The scaled weight of the space class.
pub open spec fn space_weight() -> u64 {
    19181
}

/// The weight a single byte contributes to a score.
pub open spec fn letter_weight(b: u8) -> u64 {
    if 97 <= b && b <= 122 {
        alpha_weight(b - 97)
    } else if 65 <= b && b <= 90 {
        alpha_weight(b - 65)
    } else if b == 32 {
        space_weight()
    } else {
        0
    }
}

/// A byte of the 27 scored classes: a lowercase letter or a space.
pub open spec fn is_scored_lower(b: u8) -> bool {
    (97 <= b && b <= 122) || b == 32
}

/// The score of a byte stream: the sum of its bytes' weights.
pub open spec fn score_spec(s: Seq<u8>) -> nat
    decreases s.len(),
{
    if s.len() == 0 {
        0
    } else {
        (score_spec(s.drop_last()) + letter_weight(s.last())) as nat
    }
}

/// No single byte weighs more than the space class.
pub proof fn lemma_weight_max(b: u8)
    ensures
        letter_weight(b) <= space_weight(),
{
}

/// Scores a byte stream by English-letter-frequency plausibility.
pub fn calc_letter_freq_score(s: &[u8]) -> (score: u128)
    ensures
        score == score_spec(s@),
{
    let mut score: u128 = 0;
    let n = s.len();
    for i in 0..n
        invariant
            n == s@.len(),
            score == score_spec(s@.subrange(0, i as int)),
            score <= i * space_weight(),
    {
        let w = byte_weight(s[i]);
        proof {
            let pre = s@.subrange(0, i as int);
            let post = s@.subrange(0, i + 1);
            assert(post.drop_last() =~= pre);
            assert(post.last() == s@[i as int]);
            lemma_weight_max(s@[i as int]);
            assert((i + 1) * space_weight() == i * space_weight() + space_weight())
                by (nonlinear_arith);
            assert(i * space_weight() <= (usize::MAX as int) * 19181) by (nonlinear_arith)
                requires i <= usize::MAX;
        }
        score = score + w as u128;
    }
    proof {
        assert(s@.subrange(0, n as int) =~= s@);
    }
    score
}

/// The weight of one byte, as executable code.
fn byte_weight(b: u8) -> (w: u64)
    ensures
        w == letter_weight(b),
{
    if 97 <= b && b <= 122 {
        alpha_weight_at(b - 97)
    } else if 65 <= b && b <= 90 {
        alpha_weight_at(b - 65)
    } else if b == 32 {
        19181
    } else {
        0
    }
}

/// The letter-class table, as executable code.
fn alpha_weight_at(i: u8) -> (w: u64)
    requires
        i < 26,
    ensures
        w == alpha_weight(i as int),
{
    match i {
        0 => 8167,
        1 => 1492,
        2 => 2782,
        3 => 4253,
        4 => 12702,
        5 => 2228,
        6 => 2015,
        7 => 6094,
        8 => 6966,
        9 => 153,
        10 => 772,
        11 => 4025,
        12 => 2406,
        13 => 6749,
        14 => 7507,
        15 => 1929,
        16 => 95,
        17 => 5987,
        18 => 6327,
        19 => 9056,
        20 => 2758,
        21 => 978,
        22 => 2360,
        23 => 150,
        24 => 1974,
        _ => 74,
    }
}

/// A nonempty stream of lowercase letters and spaces scores strictly
/// positive.
pub proof fn lemma_score_positive(s: Seq<u8>)
    requires
        s.len() > 0,
        forall|i: int| 0 <= i < s.len() ==> is_scored_lower(s[i]),
    ensures
        score_spec(s) > 0,
    decreases s.len(),
{
    assert(letter_weight(s.last()) > 0);
}

/// Appending a byte never lowers a score; appending a lowercase letter or a
/// space strictly raises it.
pub proof fn lemma_score_monotone_append(s: Seq<u8>, b: u8)
    ensures
        score_spec(s.push(b)) >= score_spec(s),
        is_scored_lower(b) ==> score_spec(s.push(b)) > score_spec(s),
{
    let t = s.push(b);
    assert(t.drop_last() =~= s);
    assert(t.last() == b);
}

} // verus!
