//! Error taxonomy: malformed input and precondition violations are surfaced
//! to the caller; a heuristic returning a wrong key is not an error.

use vstd::prelude::*;

verus! {

/// What a library call can fail with.
#[derive(Clone, Copy, Debug, PartialEq, Eq, Structural)]
pub enum XorError {
    /// The input is too short for key-length estimation.
    InsufficientInput,
    /// A hex string had an odd number of digits.
    OddHexLength,
    /// A hex string held a byte that is no hex digit.
    InvalidHexChar,
    /// A base64 string could not be decoded.
    InvalidBase64,
    /// Block-cipher decryption was refused (bad key length, bad padding,
    /// or a ciphertext that is no multiple of the block size).
    DecryptFailed,
}

} // verus!
