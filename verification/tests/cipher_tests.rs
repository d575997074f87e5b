use xorbreak::aes::decrypt_aes_ecb;
use xorbreak::codec::decode_stripped_base64;
use xorbreak::codec::hex_to_b64;
use xorbreak::codec::repeating_key_xor_impl;
use xorbreak::codec::single_byte_xor;
use xorbreak::codec::single_character_xor_from_lines;
use xorbreak::errors::XorError;
use xorbreak::freq::calc_letter_freq_score;
use xorbreak::keylen::break_repeating_key_xor;
use xorbreak::keylen::calc_avg_edit_dist;
use xorbreak::keylen::estimate_key_length;
use xorbreak::keylen::recover_key;
use xorbreak::keylen::transpose_blocks;
use xorbreak::xor::fixed_xor;
use xorbreak::xor::hamming_distance;
use xorbreak::xor::repeating_key_xor;
use xorbreak::xor::single_char_xor;

const TEXT: &str = "It was a bright cold day in April, and the clocks were striking thirteen. \
Winston Smith, his chin nuzzled into his breast in an effort to escape the vile wind, \
slipped quickly through the glass doors of Victory Mansions, though not quickly enough \
to prevent a swirl of gritty dust from entering along with him. The hallway smelt of \
boiled cabbage and old rag mats. At one end of it a coloured poster, too large for indoor \
display, had been tacked to the wall. It depicted simply an enormous face, more than a \
metre wide: the face of a man of about forty five, with a heavy black moustache and \
ruggedly handsome features.";

#[test]
fn fixed_xor_involution_roundtrip() {
    let a: Vec<u8> = vec![0x1c, 0x01, 0x11, 0x00, 0x1f, 0xff, 0x00];
    let b: Vec<u8> = vec![0x68, 0x69, 0x74, 0x20, 0x74, 0x68, 0x65];
    let once = fixed_xor(a.clone(), b.clone());
    let twice = fixed_xor(once, b.clone());
    assert_eq!(twice, a);
}

#[test]
fn fixed_xor_truncates_to_shorter() {
    let r = fixed_xor(vec![1, 2, 3], vec![1, 2]);
    assert_eq!(r, vec![0, 0]);
}

#[test]
fn score_positive_on_letters_and_spaces() {
    let s = calc_letter_freq_score(b"hello world");
    assert!(s > 0);
    let empty = calc_letter_freq_score(b"");
    assert_eq!(empty, 0);
}

#[test]
fn score_monotone_when_appending_letters() {
    let base = b"some plain words".to_vec();
    let mut longer = base.clone();
    longer.push(b'e');
    assert!(calc_letter_freq_score(&longer) > calc_letter_freq_score(&base));
    let mut with_control = base.clone();
    with_control.push(0x01);
    assert_eq!(
        calc_letter_freq_score(&with_control),
        calc_letter_freq_score(&base)
    );
}

#[test]
fn score_exact_value() {
    // 'a' weighs 8167 and the space 19181, scaled by 100000.
    assert_eq!(calc_letter_freq_score(b"a "), 27348);
}

#[test]
fn single_char_xor_recovers_every_key() {
    let sent = b"The quick brown fox jumps over the lazy dog every single day";
    for k in 0..=255u8 {
        let ct: Vec<u8> = sent.iter().map(|b| b ^ k).collect();
        assert_eq!(single_char_xor(&ct), k);
    }
}

#[test]
fn single_byte_xor_breaks_classic_line() {
    let line = "1b37373331363f78151b7f2b783431333d78397828372d363c78373e783a393b3736";
    let (message, score) = single_byte_xor(line).unwrap().unwrap();
    assert_eq!(message, "Cooking MC's like a pound of bacon");
    assert_eq!(score, 253159);
}

#[test]
fn single_byte_xor_rejects_bad_hex() {
    assert_eq!(single_byte_xor("abc"), Err(XorError::OddHexLength));
    assert_eq!(single_byte_xor("zz"), Err(XorError::InvalidHexChar));
}

#[test]
fn single_byte_xor_skips_non_ascii_candidates() {
    // No key byte maps both 0x00 and 0x80 into ASCII at once.
    assert_eq!(single_byte_xor("0080"), Ok(None));
}

#[test]
fn from_lines_picks_best_line() {
    let lines = vec![
        "ffff".to_string(),
        "1b37373331363f78151b7f2b783431333d78397828372d363c78373e783a393b3736".to_string(),
    ];
    let (message, idx) = single_character_xor_from_lines(&lines).unwrap().unwrap();
    assert_eq!(idx, 1);
    assert_eq!(message, "Cooking MC's like a pound of bacon");
}

#[test]
fn from_lines_rejects_bad_hex_line() {
    let lines = vec!["ffff".to_string(), "xy".to_string()];
    assert_eq!(
        single_character_xor_from_lines(&lines),
        Err(XorError::InvalidHexChar)
    );
}

#[test]
fn from_lines_empty_input() {
    let lines: Vec<String> = Vec::new();
    assert_eq!(single_character_xor_from_lines(&lines), Ok(None));
}

#[test]
fn hamming_distance_canonical_pair() {
    assert_eq!(
        hamming_distance(b"this is a test", b"wokka wokka!!!"),
        37
    );
}

#[test]
fn hamming_distance_zero_on_equal() {
    assert_eq!(hamming_distance(b"abc", b"abc"), 0);
}

#[test]
fn avg_edit_dist_exact_fraction() {
    // Blocks "aa" "aa" "bb" "bb": distances 0, 4, 0 over three pairs,
    // denominator 2 * (3 + 1).
    let (num, den) = calc_avg_edit_dist(2, b"aaaabbbb");
    assert_eq!((num, den), (4, 8));
}

#[test]
fn avg_edit_dist_no_pairs() {
    let (num, den) = calc_avg_edit_dist(5, b"abc");
    assert_eq!((num, den), (0, 5));
}

#[test]
fn estimate_rejects_short_input() {
    assert_eq!(
        estimate_key_length(&[], 2, 40),
        Err(XorError::InsufficientInput)
    );
    assert_eq!(
        estimate_key_length(&[7], 2, 40),
        Err(XorError::InsufficientInput)
    );
    assert_eq!(
        break_repeating_key_xor(&[7]),
        Err(XorError::InsufficientInput)
    );
    assert_eq!(recover_key(&[]), Err(XorError::InsufficientInput));
}

#[test]
fn estimate_ties_pick_smallest() {
    // Three bytes give no block pair at any candidate length, so every
    // average is zero and the smallest candidate wins.
    assert_eq!(estimate_key_length(b"abc", 2, 40), Ok(2));
}

fn encrypt(text: &[u8], key: &[u8]) -> Vec<u8> {
    repeating_key_xor(text, key)
}

#[test]
fn estimate_recovers_length_sixteen() {
    let text = TEXT.repeat(8);
    let ct = encrypt(text.as_bytes(), b"sixteen byte key");
    assert_eq!(estimate_key_length(&ct, 2, 40), Ok(16));
}

#[test]
fn estimate_recovers_length_twenty() {
    let ct = encrypt(TEXT.as_bytes(), b"twenty byte key pad!");
    assert_eq!(estimate_key_length(&ct, 2, 40), Ok(20));
}

#[test]
fn estimate_recovers_length_twenty_nine() {
    let ct = encrypt(TEXT.as_bytes(), b"Terminator X: Bring the noise");
    assert_eq!(estimate_key_length(&ct, 2, 40), Ok(29));
}

#[test]
fn estimate_recovers_length_thirty_three() {
    let text = TEXT.repeat(2);
    let ct = encrypt(text.as_bytes(), b"a thirty three byte long xor key!");
    assert_eq!(estimate_key_length(&ct, 2, 40), Ok(33));
}


const SEA_TEXT: &str = "Call me Ishmael. Some years ago, never mind how long precisely, \
having little or no money in my purse, and nothing particular to interest me on shore, \
I thought I would sail about a little and see the watery part of the world. It is a way \
I have of driving off the spleen and regulating the circulation.";

#[test]
fn estimate_recovers_length_nine() {
    let text = SEA_TEXT.repeat(16);
    let ct = encrypt(text.as_bytes(), b"ninechars");
    assert_eq!(estimate_key_length(&ct, 2, 40), Ok(9));
    assert_eq!(break_repeating_key_xor(&ct).unwrap(), b"ninechars".to_vec());
}

#[test]
fn break_recovers_whole_key() {
    let text = TEXT.repeat(8);
    let key = b"sixteen byte key";
    let ct = encrypt(text.as_bytes(), key);
    assert_eq!(break_repeating_key_xor(&ct).unwrap(), key.to_vec());
}

#[test]
fn recover_key_end_to_end() {
    let key = "Terminator X: Bring the noise";
    let ct = encrypt(TEXT.as_bytes(), key.as_bytes());
    assert_eq!(recover_key(&ct).unwrap(), key);
}

#[test]
fn transpose_collects_columns() {
    let cols = transpose_blocks(&[1, 2, 3, 4, 5, 6, 7], 3);
    assert_eq!(cols.len(), 3);
    assert_eq!(cols[0], vec![1, 4]);
    assert_eq!(cols[1], vec![2, 5]);
    assert_eq!(cols[2], vec![3, 6]);
}

#[test]
fn hex_to_b64_classic_value() {
    let hex = b"49276d206b696c6c696e6720796f757220627261696e206c696b65206120706f69736f6e6f7573206d757368726f6f6d";
    assert_eq!(
        hex_to_b64(hex).unwrap(),
        "SSdtIGtpbGxpbmcgeW91ciBicmFpbiBsaWtlIGEgcG9pc29ub3VzIG11c2hyb29t"
    );
}

#[test]
fn hex_to_b64_rejects_malformed() {
    assert_eq!(hex_to_b64(b"abc"), Err(XorError::OddHexLength));
    assert_eq!(hex_to_b64(b"g0"), Err(XorError::InvalidHexChar));
}

#[test]
fn decode_stripped_base64_strips_newlines() {
    assert_eq!(
        decode_stripped_base64(b"aGVs\nbG8=\n").unwrap(),
        b"hello".to_vec()
    );
}

#[test]
fn decode_stripped_base64_rejects_malformed() {
    assert_eq!(
        decode_stripped_base64(b"!!!"),
        Err(XorError::InvalidBase64)
    );
}

#[test]
fn repeating_key_xor_classic_value() {
    let text = "Burning 'em, if you ain't quick and nimble\nI go crazy when I hear a cymbal";
    assert_eq!(
        repeating_key_xor_impl(text, "ICE"),
        "0b3637272a2b2e63622c2e69692a23693a2a3c6324202d623d63343c2a26226324272765272a28\
2b2f20430a652e2c652a3124333a653e2b2027630c692b20283165286326302e27282f"
    );
}

#[test]
fn repeating_key_xor_raw_bytes() {
    // The key "\u{e9}" is the two bytes 0xC3 0xA9; the XOR stream 0xA2 0xCB
    // is not valid UTF-8 and must be hex-encoded as it is.
    assert_eq!(repeating_key_xor_impl("ab", "\u{e9}"), "a2cb");
}

#[test]
fn repeating_key_xor_empty_key() {
    assert_eq!(repeating_key_xor_impl("abc", ""), "");
}

#[test]
fn aes_ecb_roundtrip() {
    let key = b"YELLOW SUBMARINE";
    let plain = b"attack at dawn, twice over, now!";
    let ct = openssl::symm::encrypt(
        openssl::symm::Cipher::aes_128_ecb(),
        key,
        None,
        plain,
    )
    .unwrap();
    assert_eq!(
        decrypt_aes_ecb(key, &ct).unwrap(),
        String::from_utf8_lossy(plain)
    );
}

#[test]
fn aes_ecb_rejects_bad_key() {
    assert_eq!(
        decrypt_aes_ecb(b"short", b"0123456789abcdef"),
        Err(XorError::DecryptFailed)
    );
}