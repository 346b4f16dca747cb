use vstd::prelude::*;
use vstd::string::StringExecFns;

verus! {

/// Failure of a single field decryption.
#[derive(Debug, Clone, Copy, PartialEq, Eq, Structural)]
pub enum CryptoError {
    /// The key is neither 16 nor 32 bytes long.
    InvalidKeyLength,
    /// The ciphertext is not a positive multiple of the block size, or its
    /// padding is malformed after decryption.
    DecryptionFailed,
    /// Decryption and unpadding succeeded but the bytes are not UTF-8 text.
    Utf8ConversionFailed,
}

/// Failure of a batch decode.
#[derive(Debug, Clone, Copy, PartialEq, Eq, Structural)]
pub enum DecodeError {
    Crypto(CryptoError),
    /// A decrypted term frequency is not a base-10 `i32`.
    InvalidTermFrequencyFormat,
    /// A decrypted document identifier is not a base-10 `i32`.
    InvalidDocIdFormat,
}

/// Failure of a whole request at the boundary.
#[derive(Debug, Clone, Copy, PartialEq, Eq, Structural)]
pub enum RequestError {
    /// A ciphertext field or the key is not valid standard base64.
    Base64DecodeFailed,
    Decode(DecodeError),
}

pub open spec fn crypto_message(e: CryptoError) -> Seq<char> {
    match e {
        CryptoError::InvalidKeyLength => "Invalid index key length"@,
        CryptoError::DecryptionFailed => "Decryption failed"@,
        CryptoError::Utf8ConversionFailed => "UTF-8 conversion failed"@,
    }
}

pub open spec fn decode_message(e: DecodeError) -> Seq<char> {
    match e {
        DecodeError::Crypto(c) => crypto_message(c),
        DecodeError::InvalidTermFrequencyFormat => "Invalid TF format"@,
        DecodeError::InvalidDocIdFormat => "Invalid DocID format"@,
    }
}

pub open spec fn request_message(e: RequestError) -> Seq<char> {
    match e {
        RequestError::Base64DecodeFailed => "Base64 decoding failed"@,
        RequestError::Decode(d) => decode_message(d),
    }
}

impl CryptoError {
    /// A plain-text description of the failure category.
    pub fn message(&self) -> (r: String)
        ensures
            r@ == crypto_message(*self),
    {
        match self {
            CryptoError::InvalidKeyLength => String::from_str("Invalid index key length"),
            CryptoError::DecryptionFailed => String::from_str("Decryption failed"),
            CryptoError::Utf8ConversionFailed => String::from_str("UTF-8 conversion failed"),
        }
    }
}

impl DecodeError {
    /// A plain-text description of the failure category.
    pub fn message(&self) -> (r: String)
        ensures
            r@ == decode_message(*self),
    {
        match self {
            DecodeError::Crypto(e) => e.message(),
            DecodeError::InvalidTermFrequencyFormat => String::from_str("Invalid TF format"),
            DecodeError::InvalidDocIdFormat => String::from_str("Invalid DocID format"),
        }
    }
}

impl RequestError {
    /// A plain-text description of the failure category.
    pub fn message(&self) -> (r: String)
        ensures
            r@ == request_message(*self),
    {
        match self {
            RequestError::Base64DecodeFailed => String::from_str("Base64 decoding failed"),
            RequestError::Decode(e) => e.message(),
        }
    }
}

} // verus!
