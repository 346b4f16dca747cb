//! Decrypt-then-rank core of a privacy-preserving search pipeline.
//!
//! Encrypted (term-frequency, doc-id) pairs are decrypted under an index key
//! (AES-128 or AES-256 in ECB mode with PKCS#7 padding, chosen by the key's
//! length), parsed into integers with all-or-nothing semantics over the batch,
//! and ranked by descending term frequency with a stable order on ties.
//!
//! ECB mode is kept only because the producer of the encrypted index commits to
//! it: identical plaintext blocks leak as identical ciphertext blocks.

pub mod cipher;
pub mod decode;
pub mod error;
pub mod rank;
pub mod request;
