//! Format transcoding at the library's edge: hex, base64, and lossy
//! byte-to-text decoding, each behind a small trusted wrapper, and the
//! ASCII-filtered single-byte XOR breaker that works on hex input.

use vstd::prelude::*;
use vstd::string::StringSliceAdditionalSpecFns;

use crate::errors::XorError;
use crate::freq::score_spec;
use crate::xor::repeat_xor;
use crate::xor::repeating_key_xor;
use crate::xor::xor_with;
use crate::xor::xor_with_byte;

verus! {

/// A hex digit byte: `0-9`, `a-f` or `A-F`.
pub open spec fn is_hex_digit(b: u8) -> bool {
    (48 <= b && b <= 57) || (97 <= b && b <= 102) || (65 <= b && b <= 70)
}

/// The value of one hex digit byte.
pub open spec fn hex_val(b: u8) -> u8 {
    if 48 <= b && b <= 57 {
        (b - 48) as u8
    } else if 97 <= b && b <= 102 {
        (b - 87) as u8
    } else if 65 <= b && b <= 70 {
        (b - 55) as u8
    } else {
        0
    }
}

/// A well-formed hex string: an even number of hex digit bytes.
pub open spec fn hex_ok(s: Seq<u8>) -> bool {
    s.len() % 2 == 0 && forall|i: int| 0 <= i < s.len() ==> is_hex_digit(#[trigger] s[i])
}

/// The bytes a well-formed hex string denotes, two digits per byte.
pub open spec fn hex_decode_spec(s: Seq<u8>) -> Seq<u8> {
    Seq::new((s.len() / 2) as nat, |i: int| (hex_val(s[2 * i]) * 16 + hex_val(s[2 * i + 1])) as u8)
}

/// The lowercase hex digit character of a value below 16.
pub open spec fn hex_digit_char(v: u8) -> char
    recommends
        v < 16,
{
    if v < 10 {
        ((48 + v) as u8) as char
    } else {
        ((87 + v) as u8) as char
    }
}

/// The lowercase hex encoding of a byte stream, two digits per byte.
pub open spec fn hex_encode_spec(b: Seq<u8>) -> Seq<char> {
    Seq::new(
        2 * b.len(),
        |i: int|
            if i % 2 == 0 {
                hex_digit_char(b[i / 2] / 16)
            } else {
                hex_digit_char(b[i / 2] % 16)
            },
    )
}

/// What base64 encoding of a byte stream returns.
pub uninterp spec fn b64_encode_of(b: Seq<u8>) -> Seq<char>;

/// What base64 decoding of a byte stream returns: the decoded bytes, or
/// nothing when the input is no well-formed base64.
pub uninterp spec fn b64_decode_of(b: Seq<u8>) -> Option<Seq<u8>>;

/// What lossy text decoding of a byte stream returns.
pub uninterp spec fn lossy_of(b: Seq<u8>) -> Seq<char>;

/// Every byte is ASCII.
pub open spec fn all_ascii(s: Seq<u8>) -> bool {
    forall|i: int| 0 <= i < s.len() ==> #[trigger] s[i] < 128
}

/// An ASCII byte stream read as characters, one per byte.
pub open spec fn ascii_chars_of(s: Seq<u8>) -> Seq<char> {
    Seq::new(s.len(), |i: int| s[i] as char)
}

/// The stream with every newline byte removed.
pub open spec fn strip_nl(s: Seq<u8>) -> Seq<u8>
    decreases s.len(),
{
    if s.len() == 0 {
        Seq::empty()
    } else if s.last() == 10 {
        strip_nl(s.drop_last())
    } else {
        strip_nl(s.drop_last()).push(s.last())
    }
}

/// Relies on hex::decode: both digit cases are accepted; an odd-length
/// input is refused first, then the first non-digit byte.
#[verifier::external_body]
fn hex_decode(data: &[u8]) -> (r: Result<Vec<u8>, XorError>)
    ensures
        r is Ok <==> hex_ok(data@),
        (match r {
            Ok(v) => v@ == hex_decode_spec(data@),
            Err(e) => e == if data@.len() % 2 != 0 {
                XorError::OddHexLength
            } else {
                XorError::InvalidHexChar
            },
        }),
{
    match hex::decode(data) {
        Ok(v) => Ok(v),
        Err(hex::FromHexError::OddLength) => Err(XorError::OddHexLength),
        Err(hex::FromHexError::InvalidHexCharacter { .. }) => Err(XorError::InvalidHexChar),
        Err(hex::FromHexError::InvalidStringLength) => Err(XorError::InvalidHexChar),
    }
}

/// Relies on hex::encode: two lowercase digits per byte, high digit first.
#[verifier::external_body]
fn hex_encode(data: &[u8]) -> (r: String)
    ensures
        r@ == hex_encode_spec(data@),
{
    hex::encode(data)
}

/// Relies on base64::encode: standard alphabet with padding, so the output
/// holds four characters for every started group of three bytes.
#[verifier::external_body]
fn b64_encode(data: &[u8]) -> (r: String)
    ensures
        r@ == b64_encode_of(data@),
        r@.len() == 4 * ((data@.len() + 2) / 3),
{
    base64::encode(data)
}

/// Relies on base64::decode: a deterministic function of the input bytes
/// that either decodes them or refuses them.
#[verifier::external_body]
fn b64_decode(data: &[u8]) -> (r: Result<Vec<u8>, XorError>)
    ensures
        (match r {
            Ok(v) => b64_decode_of(data@) == Some(v@),
            Err(e) => b64_decode_of(data@) is None && e == XorError::InvalidBase64,
        }),
{
    match base64::decode(data) {
        Ok(v) => Ok(v),
        Err(_) => Err(XorError::InvalidBase64),
    }
}

/// Relies on String::from_utf8_lossy: a deterministic function of the input
/// bytes, and ASCII bytes are valid UTF-8, so they decode to themselves.
#[verifier::external_body]
pub(crate) fn lossy_string(data: &[u8]) -> (r: String)
    ensures
        r@ == lossy_of(data@),
        all_ascii(data@) ==> r@ == ascii_chars_of(data@),
{
    String::from_utf8_lossy(data).into_owned()
}

/// Relies on String::push: appends exactly the given character.
#[verifier::external_body]
pub(crate) fn push_char(s: &mut String, c: char)
    ensures
        final(s)@ == old(s)@.push(c),
{
    s.push(c)
}

/// Transcodes a hex string to base64.
pub fn hex_to_b64(data_hex: &[u8]) -> (r: Result<String, XorError>)
    ensures
        r is Ok <==> hex_ok(data_hex@),
        r matches Ok(s) ==> s@ == b64_encode_of(hex_decode_spec(data_hex@)),
        data_hex@.len() % 2 != 0 ==> r == Err::<String, XorError>(XorError::OddHexLength),
        data_hex@.len() % 2 == 0 && !hex_ok(data_hex@) ==> r == Err::<String, XorError>(
            XorError::InvalidHexChar,
        ),
{
    let bytes = match hex_decode(data_hex) {
        Ok(v) => v,
        Err(e) => {
            return Err(e);
        },
    };
    Ok(b64_encode(bytes.as_slice()))
}

/// Removes every newline byte, keeping the rest in order.
fn strip_newlines(data: &[u8]) -> (r: Vec<u8>)
    ensures
        r@ == strip_nl(data@),
{
    let mut r: Vec<u8> = Vec::new();
    let n = data.len();
    for i in 0..n
        invariant
            n == data@.len(),
            r@ == strip_nl(data@.subrange(0, i as int)),
    {
        let b = data[i];
        proof {
            let pre = data@.subrange(0, i as int);
            let post = data@.subrange(0, i + 1);
            assert(post.drop_last() =~= pre);
            assert(post.last() == data@[i as int]);
        }
        if b != 10 {
            r.push(b);
        }
    }
    proof {
        assert(data@.subrange(0, n as int) =~= data@);
    }
    r
}

/// Strips newlines from `data` and base64-decodes the rest; a malformed
/// remainder is refused, never truncated.
pub fn decode_stripped_base64(data: &[u8]) -> (r: Result<Vec<u8>, XorError>)
    ensures
        r matches Ok(v) ==> b64_decode_of(strip_nl(data@)) == Some(v@),
        r is Err ==> b64_decode_of(strip_nl(data@)) is None && r == Err::<Vec<u8>, XorError>(
            XorError::InvalidBase64,
        ),
{
    let stripped = strip_newlines(data);
    b64_decode(stripped.as_slice())
}

/// The winning key byte among candidates `0 .. n` whose decoding is pure
/// ASCII: the first strict score maximum among those, or nothing when no
/// candidate decodes to pure ASCII.
pub open spec fn best_ascii_key_upto(s: Seq<u8>, n: int) -> Option<u8>
    decreases n,
{
    if n <= 0 {
        None
    } else {
        let prev = best_ascii_key_upto(s, n - 1);
        let k = (n - 1) as u8;
        if all_ascii(xor_with(s, k)) && (prev matches Some(p) ==> score_spec(xor_with(s, k))
            > score_spec(xor_with(s, p))) {
            Some(k)
        } else {
            prev
        }
    }
}

/// What the filtered winner means: when no candidate decodes to ASCII
/// there is no winner; otherwise the winner decodes to ASCII, no ASCII
/// candidate scores above it, and every lower ASCII candidate scores
/// strictly below it.
pub proof fn lemma_best_ascii_key_upto(s: Seq<u8>, n: int)
    requires
        0 <= n <= 256,
    ensures
        best_ascii_key_upto(s, n) is None ==> forall|k: u8|
            k < n ==> !all_ascii(#[trigger] xor_with(s, k)),
        best_ascii_key_upto(s, n) matches Some(b) ==> b < n && all_ascii(xor_with(s, b)) && (
        forall|k: u8|
            k < n && all_ascii(#[trigger] xor_with(s, k)) ==> score_spec(xor_with(s, k))
                <= score_spec(xor_with(s, b))) && (forall|k: u8|
            k < b && all_ascii(#[trigger] xor_with(s, k)) ==> score_spec(xor_with(s, k))
                < score_spec(xor_with(s, b))),
    decreases n,
{
    if n > 0 {
        lemma_best_ascii_key_upto(s, n - 1);
    }
}

/// Whether every byte of the stream is ASCII.
fn is_all_ascii(data: &[u8]) -> (r: bool)
    ensures
        r == all_ascii(data@),
{
    let n = data.len();
    for i in 0..n
        invariant
            n == data@.len(),
            forall|t: int| 0 <= t < i ==> #[trigger] data@[t] < 128,
    {
        if data[i] >= 128 {
            return false;
        }
    }
    true
}

/// Breaks a single-byte XOR cipher given as a hex string, considering only
/// key bytes whose decoding is pure ASCII; candidates that decode outside
/// ASCII are skipped entirely. Returns the winning plaintext and its score,
/// or `None` when every candidate was skipped.
pub fn single_byte_xor(hex: &str) -> (r: Result<Option<(String, u128)>, XorError>)
    ensures
        r is Ok <==> hex_ok(hex.spec_bytes()),
        hex.spec_bytes().len() % 2 != 0 ==> r == Err::<Option<(String, u128)>, XorError>(
            XorError::OddHexLength,
        ),
        hex.spec_bytes().len() % 2 == 0 && !hex_ok(hex.spec_bytes()) ==> r == Err::<
            Option<(String, u128)>,
            XorError,
        >(XorError::InvalidHexChar),
        r matches Ok(opt) ==> {
            let bs = hex_decode_spec(hex.spec_bytes());
            let bk = best_ascii_key_upto(bs, 256);
            (opt is Some <==> bk is Some) && (opt matches Some((m, sc)) ==> bk matches Some(k)
                && m@ == ascii_chars_of(xor_with(bs, k)) && sc == score_spec(xor_with(bs, k)))
        },
{
    let bytes = match hex_decode(hex.as_bytes()) {
        Ok(v) => v,
        Err(e) => {
            return Err(e);
        },
    };
    let ghost bs = bytes@;
    let mut best: Option<(u8, u128)> = None;
    for n in 0..256usize
        invariant
            bs == bytes@,
            best is Some <==> best_ascii_key_upto(bs, n as int) is Some,
            best matches Some((k, sc)) ==> best_ascii_key_upto(bs, n as int) == Some(k) && sc
                == score_spec(xor_with(bs, k)) && all_ascii(xor_with(bs, k)),
    {
        let k = n as u8;
        let decoded = xor_with_byte(bytes.as_slice(), k);
        if is_all_ascii(decoded.as_slice()) {
            let string_score = crate::freq::calc_letter_freq_score(decoded.as_slice());
            match best {
                None => {
                    best = Some((k, string_score));
                },
                Some((_, best_score)) => {
                    if string_score > best_score {
                        best = Some((k, string_score));
                    }
                },
            }
        }
    }
    match best {
        None => Ok(None),
        Some((k, sc)) => {
            let decoded = xor_with_byte(bytes.as_slice(), k);
            let message = lossy_string(decoded.as_slice());
            Ok(Some((message, sc)))
        },
    }
}

/// Encrypts a text with a repeating XOR key and returns the raw cipher
/// bytes hex-encoded. An empty key yields an empty XOR stream, so the
/// result is then empty too.
pub fn repeating_key_xor_impl(string: &str, key: &str) -> (r: String)
    ensures
        r@ == hex_encode_spec(
            if key.spec_bytes().len() == 0 {
                Seq::<u8>::empty()
            } else {
                repeat_xor(string.spec_bytes(), key.spec_bytes())
            },
        ),
{
    let key_bytes = key.as_bytes();
    let content: Vec<u8> = if key_bytes.len() == 0 {
        Vec::new()
    } else {
        repeating_key_xor(string.as_bytes(), key_bytes)
    };
    hex_encode(content.as_slice())
}

/// The hex lines of `lines`, as byte sequences.
pub open spec fn lines_bytes(lines: Seq<Seq<char>>) -> Seq<Seq<u8>> {
    lines.map(|i: int, l: Seq<char>| vstd::utf8::encode_utf8(l))
}

/// The best score a line can reach, over its ASCII-decoding key candidates.
pub open spec fn line_best_score(bs: Seq<u8>) -> nat
    recommends
        best_ascii_key_upto(hex_decode_spec(bs), 256) is Some,
{
    score_spec(
        xor_with(hex_decode_spec(bs), best_ascii_key_upto(hex_decode_spec(bs), 256)->Some_0),
    )
}

/// The winning line among the first `n`: the first line whose best
/// ASCII-decoded candidate scores the strict maximum over all lines; lines
/// without any ASCII candidate never win.
pub open spec fn best_line_upto(ls: Seq<Seq<u8>>, n: int) -> Option<int>
    decreases n,
{
    if n <= 0 {
        None
    } else {
        let prev = best_line_upto(ls, n - 1);
        if best_ascii_key_upto(hex_decode_spec(ls[n - 1]), 256) is Some && (prev matches Some(p)
            ==> line_best_score(ls[n - 1]) > line_best_score(ls[p])) {
            Some(n - 1)
        } else {
            prev
        }
    }
}

/// Breaks each hex line as a single-byte XOR cipher (ASCII-filtered) and
/// returns the winning line's plaintext and index, or `None` when no line
/// has any ASCII candidate. A malformed hex line is refused.
pub fn single_character_xor_from_lines(lines: &Vec<String>) -> (r: Result<
    Option<(String, usize)>,
    XorError,
>)
    ensures
        r is Ok <==> (forall|i: int|
            0 <= i < lines@.len() ==> hex_ok(
                #[trigger] vstd::utf8::encode_utf8(lines@[i]@),
            )),
        r matches Ok(opt) ==> {
            let ls = lines_bytes(lines@.map_values(|l: String| l@));
            let w = best_line_upto(ls, ls.len() as int);
            (opt is Some <==> w is Some) && (opt matches Some((m, idx)) ==> w == Some(idx as int)
                && m@ == ascii_chars_of(
                xor_with(
                    hex_decode_spec(ls[idx as int]),
                    best_ascii_key_upto(hex_decode_spec(ls[idx as int]), 256)->Some_0,
                ),
            ))
        },
{
    let ghost ls = lines_bytes(lines@.map_values(|l: String| l@));
    let mut best: Option<(String, usize, u128)> = None;
    let n = lines.len();
    for i in 0..n
        invariant
            n == lines@.len(),
            ls == lines_bytes(lines@.map_values(|l: String| l@)),
            forall|t: int| 0 <= t < i ==> hex_ok(#[trigger] ls[t]),
            best is Some <==> best_line_upto(ls, i as int) is Some,
            best matches Some((m, idx, sc)) ==> best_line_upto(ls, i as int) == Some(idx as int)
                && idx < i && sc == line_best_score(ls[idx as int]) && m@ == ascii_chars_of(
                xor_with(
                    hex_decode_spec(ls[idx as int]),
                    best_ascii_key_upto(hex_decode_spec(ls[idx as int]), 256)->Some_0,
                ),
            ),
    {
        proof {
            assert(lines@.map_values(|l: String| l@)[i as int] == lines@[i as int]@);
            assert(ls[i as int] == vstd::utf8::encode_utf8(lines@[i as int]@));
        }
        let line_result = single_byte_xor(lines[i].as_str());
        match line_result {
            Err(e) => {
                proof {
                    assert(!hex_ok(vstd::utf8::encode_utf8(lines@[i as int]@)));
                }
                return Err(e);
            },
            Ok(None) => {},
            Ok(Some((m, sc))) => {
                let replace = match &best {
                    None => true,
                    Some((_, _, best_sc)) => sc > *best_sc,
                };
                if replace {
                    best = Some((m, i, sc));
                }
            },
        }
    }
    proof {
        assert forall|t: int| 0 <= t < lines@.len() implies hex_ok(
            #[trigger] vstd::utf8::encode_utf8(lines@[t]@),
        ) by {
            assert(lines@.map_values(|l: String| l@)[t] == lines@[t]@);
            assert(ls[t] == vstd::utf8::encode_utf8(lines@[t]@));
        }
    }
    match best {
        None => Ok(None),
        Some((m, idx, _)) => Ok(Some((m, idx))),
    }
}

} // verus!
