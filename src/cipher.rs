use crate::error::CryptoError;
use aes::cipher::block_padding::Pkcs7;
use aes::cipher::{BlockDecryptMut, BlockEncryptMut, KeyInit};
use aes::{Aes128, Aes256};
use vstd::prelude::*;
use vstd::utf8::{decode_utf8, encode_utf8, encode_utf8_decode_utf8, encode_utf8_valid_utf8, valid_utf8};

verus! {

/// Cipher strength, selected by the key's length alone.
#[derive(Debug, Clone, Copy, PartialEq, Eq, Structural)]
pub enum KeyStrength {
    /// AES-128, for a 16-byte key.
    Aes128,
    /// AES-256, for a 32-byte key.
    Aes256,
}

/// The strength a key of `len` bytes selects, if any.
pub open spec fn strength_of_len(len: nat) -> Option<KeyStrength> {
    if len == 16 {
        Some(KeyStrength::Aes128)
    } else if len == 32 {
        Some(KeyStrength::Aes256)
    } else {
        None
    }
}

/// Block-by-block AES-128 decryption of `ct` (a multiple of 16 bytes) under `key`.
pub uninterp spec fn aes128_ecb_decrypt_blocks(key: Seq<u8>, ct: Seq<u8>) -> Seq<u8>;

/// Block-by-block AES-256 decryption of `ct` (a multiple of 16 bytes) under `key`.
pub uninterp spec fn aes256_ecb_decrypt_blocks(key: Seq<u8>, ct: Seq<u8>) -> Seq<u8>;

pub open spec fn ecb_decrypt_blocks(s: KeyStrength, key: Seq<u8>, ct: Seq<u8>) -> Seq<u8> {
    match s {
        KeyStrength::Aes128 => aes128_ecb_decrypt_blocks(key, ct),
        KeyStrength::Aes256 => aes256_ecb_decrypt_blocks(key, ct),
    }
}

/// The number of PKCS#7 padding bytes appended to a message of `len` bytes.
pub open spec fn pkcs7_pad_len(len: nat) -> nat {
    (16 - (len % 16)) as nat
}

/// `msg` followed by `n` copies of the byte `n`, where `n` fills up the last block.
pub open spec fn pkcs7_pad(msg: Seq<u8>) -> Seq<u8> {
    let n = pkcs7_pad_len(msg.len());
    msg + Seq::new(n, |i: int| n as u8)
}

/// Removes PKCS#7 padding from a decrypted buffer: the last byte `n` must lie in
/// `1..=16` and the last `n` bytes must all equal `n`.
pub open spec fn pkcs7_unpad(buf: Seq<u8>) -> Option<Seq<u8>> {
    if buf.len() == 0 {
        None
    } else {
        let n = buf.last() as int;
        if n == 0 || n > 16 || n > buf.len() {
            None
        } else if forall|i: int| buf.len() - n <= i < buf.len() ==> buf[i] == n {
            Some(buf.subrange(0, buf.len() - n))
        } else {
            None
        }
    }
}

/// Whether `ct` has a length the block mode accepts: a positive multiple of 16.
pub open spec fn block_aligned(ct: Seq<u8>) -> bool {
    ct.len() > 0 && ct.len() % 16 == 0
}

/// Decryption of one field under a key of the given strength.
pub open spec fn decrypt_with_spec(s: KeyStrength, key: Seq<u8>, ct: Seq<u8>) -> Result<
    Seq<char>,
    CryptoError,
> {
    if !block_aligned(ct) {
        Err(CryptoError::DecryptionFailed)
    } else {
        match pkcs7_unpad(ecb_decrypt_blocks(s, key, ct)) {
            None => Err(CryptoError::DecryptionFailed),
            Some(plain) => if valid_utf8(plain) {
                Ok(decode_utf8(plain))
            } else {
                Err(CryptoError::Utf8ConversionFailed)
            },
        }
    }
}

/// Decryption of one field, the cipher strength selected by the key's length.
pub open spec fn decrypt_spec(key: Seq<u8>, ct: Seq<u8>) -> Result<Seq<char>, CryptoError> {
    match strength_of_len(key.len()) {
        None => Err(CryptoError::InvalidKeyLength),
        Some(s) => decrypt_with_spec(s, key, ct),
    }
}

/// Decryption of one field under a key that must have the given strength.
pub open spec fn decrypt_fixed_spec(s: KeyStrength, key: Seq<u8>, ct: Seq<u8>) -> Result<
    Seq<char>,
    CryptoError,
> {
    if strength_of_len(key.len()) != Some(s) {
        Err(CryptoError::InvalidKeyLength)
    } else {
        decrypt_with_spec(s, key, ct)
    }
}

pub open spec fn text_view(r: Result<String, CryptoError>) -> Result<Seq<char>, CryptoError> {
    match r {
        Ok(t) => Ok(t@),
        Err(e) => Err(e),
    }
}

/// Unpadding what padding produced gives the message back.
pub proof fn lemma_pkcs7_unpad_pad(msg: Seq<u8>)
    ensures
        pkcs7_unpad(pkcs7_pad(msg)) == Some(msg),
        block_aligned(pkcs7_pad(msg)),
        pkcs7_pad(msg).len() == 16 * (msg.len() / 16 + 1),
{
    let len = msg.len() as int;
    assert(len == 16 * (len / 16) + len % 16) by (nonlinear_arith);
    let n = pkcs7_pad_len(msg.len());
    let p = pkcs7_pad(msg);
    assert(p.last() == n as u8);
    assert(p.subrange(0, p.len() - n) =~= msg);
}

/// A ciphertext that is well formed under its key but whose unpadded bytes are
/// not UTF-8 fails as a conversion failure, not as a decryption failure, for
/// either strength.
pub proof fn lemma_non_text_is_conversion_failure(s: KeyStrength, key: Seq<u8>, ct: Seq<u8>)
    requires
        strength_of_len(key.len()) == Some(s),
        block_aligned(ct),
        pkcs7_unpad(ecb_decrypt_blocks(s, key, ct)) matches Some(plain) && !valid_utf8(plain),
    ensures
        decrypt_fixed_spec(s, key, ct) == Err::<Seq<char>, CryptoError>(
            CryptoError::Utf8ConversionFailed,
        ),
        decrypt_spec(key, ct) == Err::<Seq<char>, CryptoError>(CryptoError::Utf8ConversionFailed),
{
}

/// Relies on `ecb::Decryptor::<Aes128>::decrypt_padded_vec_mut::<Pkcs7>`: it fails
/// unless the input is a positive multiple of 16 bytes, and otherwise returns
/// the PKCS#7-unpadded block decryption, or fails when that padding is malformed.
#[verifier::external_body]
fn aes128_ecb_decrypt_padded(key: &[u8], ct: &[u8]) -> (r: Option<Vec<u8>>)
    requires
        key@.len() == 16,
    ensures
        match r {
            Some(p) => block_aligned(ct@) && pkcs7_unpad(aes128_ecb_decrypt_blocks(key@, ct@))
                == Some(p@),
            None => !block_aligned(ct@) || pkcs7_unpad(aes128_ecb_decrypt_blocks(key@, ct@))
                is None,
        },
{
    ecb::Decryptor::<Aes128>::new(key.into()).decrypt_padded_vec_mut::<Pkcs7>(ct).ok()
}

/// Relies on `ecb::Decryptor::<Aes256>::decrypt_padded_vec_mut::<Pkcs7>`: it fails
/// unless the input is a positive multiple of 16 bytes, and otherwise returns
/// the PKCS#7-unpadded block decryption, or fails when that padding is malformed.
#[verifier::external_body]
fn aes256_ecb_decrypt_padded(key: &[u8], ct: &[u8]) -> (r: Option<Vec<u8>>)
    requires
        key@.len() == 32,
    ensures
        match r {
            Some(p) => block_aligned(ct@) && pkcs7_unpad(aes256_ecb_decrypt_blocks(key@, ct@))
                == Some(p@),
            None => !block_aligned(ct@) || pkcs7_unpad(aes256_ecb_decrypt_blocks(key@, ct@))
                is None,
        },
{
    ecb::Decryptor::<Aes256>::new(key.into()).decrypt_padded_vec_mut::<Pkcs7>(ct).ok()
}

/// Relies on `ecb::Encryptor::<Aes128>::encrypt_padded_vec_mut::<Pkcs7>`: the
/// message is PKCS#7-padded and each block encrypted, so decrypting the blocks
/// under the same key gives the padded message back.
#[verifier::external_body]
fn aes128_ecb_encrypt_padded(key: &[u8], msg: &[u8]) -> (r: Vec<u8>)
    requires
        key@.len() == 16,
    ensures
        r@.len() == pkcs7_pad(msg@).len(),
        aes128_ecb_decrypt_blocks(key@, r@) == pkcs7_pad(msg@),
{
    ecb::Encryptor::<Aes128>::new(key.into()).encrypt_padded_vec_mut::<Pkcs7>(msg)
}

/// Relies on `ecb::Encryptor::<Aes256>::encrypt_padded_vec_mut::<Pkcs7>`: the
/// message is PKCS#7-padded and each block encrypted, so decrypting the blocks
/// under the same key gives the padded message back.
#[verifier::external_body]
fn aes256_ecb_encrypt_padded(key: &[u8], msg: &[u8]) -> (r: Vec<u8>)
    requires
        key@.len() == 32,
    ensures
        r@.len() == pkcs7_pad(msg@).len(),
        aes256_ecb_decrypt_blocks(key@, r@) == pkcs7_pad(msg@),
{
    ecb::Encryptor::<Aes256>::new(key.into()).encrypt_padded_vec_mut::<Pkcs7>(msg)
}

/// Relies on `String::from_utf8`: it succeeds exactly on valid UTF-8, and the
/// string then holds the decoded characters.
#[verifier::external_body]
fn string_from_utf8(bytes: Vec<u8>) -> (r: Option<String>)
    ensures
        match r {
            Some(t) => valid_utf8(bytes@) && t@ == decode_utf8(bytes@),
            None => !valid_utf8(bytes@),
        },
{
    String::from_utf8(bytes).ok()
}

/// Selects the cipher strength for a key of `len` bytes.
pub fn select_strength(len: usize) -> (r: Option<KeyStrength>)
    ensures
        r == strength_of_len(len as nat),
{
    if len == 16 {
        Some(KeyStrength::Aes128)
    } else if len == 32 {
        Some(KeyStrength::Aes256)
    } else {
        None
    }
}

/// Decrypts one field under a key whose length matches the strength.
pub fn decrypt_with(strength: KeyStrength, key: &[u8], ciphertext: &[u8]) -> (r: Result<
    String,
    CryptoError,
>)
    requires
        strength_of_len(key@.len()) == Some(strength),
    ensures
        text_view(r) == decrypt_with_spec(strength, key@, ciphertext@),
        !block_aligned(ciphertext@) ==> r == Err::<String, CryptoError>(
            CryptoError::DecryptionFailed,
        ),
{
    let unpadded = match strength {
        KeyStrength::Aes128 => aes128_ecb_decrypt_padded(key, ciphertext),
        KeyStrength::Aes256 => aes256_ecb_decrypt_padded(key, ciphertext),
    };
    text_of_unpadded(unpadded)
}

/// Turns the outcome of block decryption and unpadding into the field's text:
/// a failed unpadding is a decryption failure, bytes that are not UTF-8 are a
/// conversion failure.
pub fn text_of_unpadded(unpadded: Option<Vec<u8>>) -> (r: Result<String, CryptoError>)
    ensures
        match unpadded {
            None => r == Err::<String, CryptoError>(CryptoError::DecryptionFailed),
            Some(p) => if valid_utf8(p@) {
                r matches Ok(t) && t@ == decode_utf8(p@)
            } else {
                r == Err::<String, CryptoError>(CryptoError::Utf8ConversionFailed)
            },
        },
{
    match unpadded {
        None => Err(CryptoError::DecryptionFailed),
        Some(plain) => match string_from_utf8(plain) {
            Some(text) => Ok(text),
            None => Err(CryptoError::Utf8ConversionFailed),
        },
    }
}

/// Decrypts one field, the cipher strength chosen by the key's length. A key of
/// any length but 16 or 32 bytes is rejected before the ciphertext is read.
pub fn decrypt_field(key: &[u8], ciphertext: &[u8]) -> (r: Result<String, CryptoError>)
    ensures
        text_view(r) == decrypt_spec(key@, ciphertext@),
        strength_of_len(key@.len()) is None ==> r == Err::<String, CryptoError>(
            CryptoError::InvalidKeyLength,
        ),
        strength_of_len(key@.len()) matches Some(s) ==> {
            let unpadded = pkcs7_unpad(ecb_decrypt_blocks(s, key@, ciphertext@));
            &&& !block_aligned(ciphertext@) ==> r == Err::<String, CryptoError>(
                CryptoError::DecryptionFailed,
            )
            &&& unpadded is None ==> r == Err::<String, CryptoError>(CryptoError::DecryptionFailed)
            &&& (block_aligned(ciphertext@) && unpadded is Some && !valid_utf8(unpadded.unwrap()))
                ==> r == Err::<String, CryptoError>(CryptoError::Utf8ConversionFailed)
        },
{
    match select_strength(key.len()) {
        None => Err(CryptoError::InvalidKeyLength),
        Some(s) => decrypt_with(s, key, ciphertext),
    }
}

/// Decrypts one field with AES-128: a key of any length but 16 bytes is rejected
/// before the ciphertext is read.
pub fn symmetric_decryption_for_keyword_128bit(key: &[u8], ciphertext: &[u8]) -> (r: Result<
    String,
    CryptoError,
>)
    ensures
        text_view(r) == decrypt_fixed_spec(KeyStrength::Aes128, key@, ciphertext@),
{
    if key.len() != 16 {
        return Err(CryptoError::InvalidKeyLength);
    }
    decrypt_with(KeyStrength::Aes128, key, ciphertext)
}

/// Decrypts one field with AES-256: a key of any length but 32 bytes is rejected
/// before the ciphertext is read.
pub fn symmetric_decryption_for_keyword_256bit(key: &[u8], ciphertext: &[u8]) -> (r: Result<
    String,
    CryptoError,
>)
    ensures
        text_view(r) == decrypt_fixed_spec(KeyStrength::Aes256, key@, ciphertext@),
{
    if key.len() != 32 {
        return Err(CryptoError::InvalidKeyLength);
    }
    decrypt_with(KeyStrength::Aes256, key, ciphertext)
}

/// What decrypting a field whose unpadded bytes are `plain` gives: its text if
/// the bytes are UTF-8, a conversion failure otherwise.
pub open spec fn text_of_plain(plain: Seq<u8>) -> Result<Seq<char>, CryptoError> {
    if valid_utf8(plain) {
        Ok(decode_utf8(plain))
    } else {
        Err(CryptoError::Utf8ConversionFailed)
    }
}

/// Encrypts raw field bytes the way the index producer does: PKCS#7 padding,
/// then AES in ECB mode, the strength chosen by the key's length. Decrypting
/// the result under the same key gives the bytes' text back, or a conversion
/// failure when the bytes are not UTF-8.
pub fn encrypt_bytes(key: &[u8], msg: &[u8]) -> (r: Result<Vec<u8>, CryptoError>)
    ensures
        r is Err <==> strength_of_len(key@.len()) is None,
        r is Err ==> r == Err::<Vec<u8>, CryptoError>(CryptoError::InvalidKeyLength),
        r matches Ok(ct) ==> {
            &&& ct@.len() == pkcs7_pad(msg@).len()
            &&& ct@.len() == 16 * (msg@.len() / 16 + 1)
            &&& ecb_decrypt_blocks(strength_of_len(key@.len()).unwrap(), key@, ct@) == pkcs7_pad(
                msg@,
            )
            &&& decrypt_spec(key@, ct@) == text_of_plain(msg@)
        },
{
    let ct = match select_strength(key.len()) {
        None => return Err(CryptoError::InvalidKeyLength),
        Some(KeyStrength::Aes128) => aes128_ecb_encrypt_padded(key, msg),
        Some(KeyStrength::Aes256) => aes256_ecb_encrypt_padded(key, msg),
    };
    proof {
        lemma_pkcs7_unpad_pad(msg@);
    }
    Ok(ct)
}

/// Encrypts a text field the way the index producer does: UTF-8 bytes, PKCS#7
/// padding, AES in ECB mode, the strength chosen by the key's length.
/// Whatever it returns decrypts under the same key to the text itself.
pub fn encrypt_field(key: &[u8], plaintext: &str) -> (r: Result<Vec<u8>, CryptoError>)
    ensures
        r is Err <==> strength_of_len(key@.len()) is None,
        r is Err ==> r == Err::<Vec<u8>, CryptoError>(CryptoError::InvalidKeyLength),
        r matches Ok(ct) ==> {
            &&& ct@.len() == pkcs7_pad(encode_utf8(plaintext@)).len()
            &&& ecb_decrypt_blocks(strength_of_len(key@.len()).unwrap(), key@, ct@) == pkcs7_pad(
                encode_utf8(plaintext@),
            )
            &&& decrypt_spec(key@, ct@) == Ok::<Seq<char>, CryptoError>(plaintext@)
        },
{
    let msg = plaintext.as_bytes();
    proof {
        encode_utf8_decode_utf8(plaintext@);
        encode_utf8_valid_utf8(plaintext@);
        assert(msg@ == encode_utf8(plaintext@));
    }
    encrypt_bytes(key, msg)
}

/// Encrypts a text field with AES-128 under a 16-byte key.
pub fn aes_ecb_encrypt(key: [u8; 16], plaintext: &str) -> (r: Vec<u8>)
    ensures
        r@.len() == pkcs7_pad(encode_utf8(plaintext@)).len(),
        r@.len() == 16 * (encode_utf8(plaintext@).len() / 16 + 1),
        aes128_ecb_decrypt_blocks(key@, r@) == pkcs7_pad(encode_utf8(plaintext@)),
        decrypt_spec(key@, r@) == Ok::<Seq<char>, CryptoError>(plaintext@),
{
    let msg = plaintext.as_bytes();
    let ct = aes128_ecb_encrypt_padded(key.as_slice(), msg);
    proof {
        lemma_pkcs7_unpad_pad(msg@);
        encode_utf8_decode_utf8(plaintext@);
        encode_utf8_valid_utf8(plaintext@);
    }
    ct
}

/// Decrypts a text field with AES-128 under a 16-byte key.
pub fn aes_ecb_decrypt(key: [u8; 16], ciphertext: &[u8]) -> (r: Result<String, CryptoError>)
    ensures
        text_view(r) == decrypt_spec(key@, ciphertext@),
{
    decrypt_field(key.as_slice(), ciphertext)
}

} // verus!
