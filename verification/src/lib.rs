//! Classical cryptanalysis of XOR ciphers: frequency scoring, single-byte
//! XOR breaking, repeating-key length estimation, and key recovery.

pub mod aes;
pub mod codec;
pub mod errors;
pub mod freq;
pub mod keylen;
pub mod xor;
