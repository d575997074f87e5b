//! AES-128-ECB decryption, used only after the cryptanalysis has done its
//! work: a direct call into a symmetric-cipher primitive.

use vstd::prelude::*;

use crate::codec::lossy_of;
use crate::codec::lossy_string;
use crate::errors::XorError;

verus! {

/// What AES-128-ECB decryption (with padding) of a ciphertext under a key
/// returns: the plaintext bytes, or nothing when the key is not 16 bytes,
/// the ciphertext is no multiple of the block size, or the padding is
/// wrong.
pub uninterp spec fn aes128_ecb_decrypt_of(key: Seq<u8>, data: Seq<u8>) -> Option<Seq<u8>>;

/// Keys and ciphertexts longer than this are rejected: the cipher backend
/// converts each length to a 32-bit signed count and does not return on a
/// longer input.
pub const MAX_AES_LEN: u64 = 0x7FFF_FFFF;

/// Relies on openssl::symm::decrypt with Cipher::aes_128_ecb(): a
/// deterministic function of key and ciphertext that decrypts them or
/// refuses them. The backend converts both lengths to 32-bit signed counts
/// and panics above that, so longer inputs are left out here.
#[verifier::external_body]
fn aes_ecb_decrypt_raw(key: &[u8], data: &[u8]) -> (r: Result<Vec<u8>, XorError>)
    requires
        key@.len() <= MAX_AES_LEN,
        data@.len() <= MAX_AES_LEN,
    ensures
        (match r {
            Ok(v) => aes128_ecb_decrypt_of(key@, data@) == Some(v@),
            Err(e) => aes128_ecb_decrypt_of(key@, data@) is None && e == XorError::DecryptFailed,
        }),
{
    match openssl::symm::decrypt(openssl::symm::Cipher::aes_128_ecb(), key, None, data) {
        Ok(v) => Ok(v),
        Err(_) => Err(XorError::DecryptFailed),
    }
}

/// Decrypts an AES-128-ECB ciphertext and decodes the plaintext lossily to
/// text. Refused when the key or the ciphertext is not acceptable to the
/// cipher.
pub fn decrypt_aes_ecb(key: &[u8], data: &[u8]) -> (r: Result<String, XorError>)
    requires
        key@.len() <= MAX_AES_LEN,
        data@.len() <= MAX_AES_LEN,
    ensures
        (match r {
            Ok(s) => aes128_ecb_decrypt_of(key@, data@) matches Some(v) && s@ == lossy_of(v),
            Err(e) => aes128_ecb_decrypt_of(key@, data@) is None && e == XorError::DecryptFailed,
        }),
{
    let raw = match aes_ecb_decrypt_raw(key, data) {
        Ok(v) => v,
        Err(e) => {
            return Err(e);
        },
    };
    Ok(lossy_string(raw.as_slice()))
}

} // verus!
