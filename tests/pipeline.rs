use aes::cipher::block_padding::Pkcs7;
use aes::cipher::{BlockEncryptMut, KeyInit};
use base64::prelude::BASE64_STANDARD;
use base64::Engine;
use sort_enc_results::cipher::{
    decrypt_field, encrypt_bytes, encrypt_field, select_strength, symmetric_decryption_for_keyword_128bit,
    symmetric_decryption_for_keyword_256bit, text_of_unpadded, KeyStrength,
};
use sort_enc_results::decode::{decode_record, decode_results};
use sort_enc_results::error::{CryptoError, DecodeError, RequestError};
use sort_enc_results::rank::rank_results;
use sort_enc_results::request::{sort_enc_result, sort_encrypted_results, SortRequest};

fn enc(key: &[u8], text: &str) -> Vec<u8> {
    encrypt_field(key, text).unwrap()
}

fn b64(bytes: &[u8]) -> String {
    BASE64_STANDARD.encode(bytes)
}

fn invalid_utf8_field(key: &[u8]) -> Vec<u8> {
    ecb::Encryptor::<aes::Aes128>::new_from_slice(key)
        .unwrap()
        .encrypt_padded_vec_mut::<Pkcs7>(&[0xFFu8; 16])
}

#[test]
fn round_trip_128() {
    let key = [7u8; 16];
    for text in ["", "5", "0123456789abcdef", "héllo wörld, 検索", "-2147483648"] {
        let ct = enc(&key, text);
        assert_eq!(ct.len() % 16, 0);
        assert!(!ct.is_empty());
        assert_eq!(decrypt_field(&key, &ct).unwrap(), text);
        assert_eq!(symmetric_decryption_for_keyword_128bit(&key, &ct).unwrap(), text);
    }
}

#[test]
fn round_trip_256() {
    let key = [9u8; 32];
    for text in ["", "42", "0123456789abcdef0", "ranked text"] {
        let ct = enc(&key, text);
        assert_eq!(decrypt_field(&key, &ct).unwrap(), text);
        assert_eq!(symmetric_decryption_for_keyword_256bit(&key, &ct).unwrap(), text);
    }
}

#[test]
fn ciphertext_differs_from_plaintext() {
    let key = [7u8; 16];
    let ct = enc(&key, "0123456789abcdef");
    assert_eq!(ct.len(), 32);
    assert_ne!(&ct[..16], b"0123456789abcdef");
}

#[test]
fn key_strength_selection() {
    assert_eq!(select_strength(16), Some(KeyStrength::Aes128));
    assert_eq!(select_strength(32), Some(KeyStrength::Aes256));
    assert_eq!(select_strength(24), None);
}

#[test]
fn key_length_rejected() {
    for len in [0usize, 1, 15, 17, 24, 31, 33, 64] {
        let key = vec![1u8; len];
        assert_eq!(encrypt_field(&key, "1"), Err(CryptoError::InvalidKeyLength));
        assert_eq!(decrypt_field(&key, &[0u8; 16]), Err(CryptoError::InvalidKeyLength));
        let batch = vec![(vec![0u8; 16], vec![0u8; 16])];
        assert_eq!(
            decode_results(&batch, &key),
            Err(DecodeError::Crypto(CryptoError::InvalidKeyLength))
        );
        assert_eq!(
            sort_enc_result(Vec::new(), &key),
            Err(DecodeError::Crypto(CryptoError::InvalidKeyLength))
        );
    }
}

#[test]
fn fixed_strength_rejects_other_key() {
    let ct = enc(&[1u8; 16], "3");
    assert_eq!(
        symmetric_decryption_for_keyword_256bit(&[1u8; 16], &ct),
        Err(CryptoError::InvalidKeyLength)
    );
    assert_eq!(
        symmetric_decryption_for_keyword_128bit(&[1u8; 32], &ct),
        Err(CryptoError::InvalidKeyLength)
    );
}

#[test]
fn malformed_ciphertext_lengths() {
    let key = [2u8; 16];
    for len in [0usize, 1, 15, 17, 31, 33] {
        assert_eq!(decrypt_field(&key, &vec![0u8; len]), Err(CryptoError::DecryptionFailed));
    }
}

#[test]
fn wrong_key_gives_decryption_failure_or_garbage() {
    let ct = enc(&[2u8; 16], "12345");
    let r = decrypt_field(&[3u8; 16], &ct);
    assert_ne!(r, Ok("12345".to_string()));
}

#[test]
fn non_text_plaintext() {
    let key = [0u8; 16];
    let ct = invalid_utf8_field(&key);
    assert_eq!(decrypt_field(&key, &ct), Err(CryptoError::Utf8ConversionFailed));
}

#[test]
fn unpadded_to_text() {
    assert_eq!(text_of_unpadded(None), Err(CryptoError::DecryptionFailed));
    assert_eq!(text_of_unpadded(Some(vec![0xFF])), Err(CryptoError::Utf8ConversionFailed));
    assert_eq!(text_of_unpadded(Some(b"17".to_vec())), Ok("17".to_string()));
    assert_eq!(text_of_unpadded(Some(Vec::new())), Ok(String::new()));
}

#[test]
fn record_parsing() {
    let key = [4u8; 16];
    let rec = |tf: &str, doc: &str| decode_record(&key, &enc(&key, tf), &enc(&key, doc));
    assert_eq!(rec("5", "1"), Ok((5, 1)));
    assert_eq!(rec("+7", "-3"), Ok((7, -3)));
    assert_eq!(rec("2147483647", "-2147483648"), Ok((2147483647, -2147483648)));
    assert_eq!(rec("2147483648", "1"), Err(DecodeError::InvalidTermFrequencyFormat));
    assert_eq!(rec("abc", "1"), Err(DecodeError::InvalidTermFrequencyFormat));
    assert_eq!(rec("", "1"), Err(DecodeError::InvalidTermFrequencyFormat));
    assert_eq!(rec(" 5", "1"), Err(DecodeError::InvalidTermFrequencyFormat));
    assert_eq!(rec("-", "1"), Err(DecodeError::InvalidTermFrequencyFormat));
    assert_eq!(rec("5", "x"), Err(DecodeError::InvalidDocIdFormat));
    assert_eq!(rec("5", "-2147483649"), Err(DecodeError::InvalidDocIdFormat));
    assert_eq!(rec("abc", "x"), Err(DecodeError::InvalidTermFrequencyFormat));
}

#[test]
fn decryption_checked_before_parsing() {
    let key = [4u8; 16];
    let r = decode_record(&key, &enc(&key, "abc"), &[0u8; 15]);
    assert_eq!(r, Err(DecodeError::Crypto(CryptoError::DecryptionFailed)));
}

#[test]
fn decode_keeps_input_order() {
    let key = [5u8; 32];
    let batch = vec![
        (enc(&key, "1"), enc(&key, "10")),
        (enc(&key, "3"), enc(&key, "11")),
        (enc(&key, "2"), enc(&key, "12")),
    ];
    assert_eq!(decode_results(&batch, &key), Ok(vec![(1, 10), (3, 11), (2, 12)]));
    assert_eq!(decode_results(&Vec::new(), &key), Ok(Vec::new()));
}

#[test]
fn decode_fails_whole_batch() {
    let key = [5u8; 16];
    let batch = vec![
        (enc(&key, "1"), enc(&key, "10")),
        (enc(&key, "zz"), enc(&key, "11")),
        (vec![0u8; 3], enc(&key, "12")),
    ];
    assert_eq!(decode_results(&batch, &key), Err(DecodeError::InvalidTermFrequencyFormat));
}

#[test]
fn ranking_is_stable() {
    assert_eq!(rank_results(&vec![(5, 1), (5, 2), (3, 3)]), vec![(5, 1), (5, 2), (3, 3)]);
}

#[test]
fn ranking_is_descending() {
    assert_eq!(rank_results(&vec![(3, 10), (9, 11), (1, 12)]), vec![(9, 11), (3, 10), (1, 12)]);
}

#[test]
fn ranking_keeps_count() {
    assert_eq!(rank_results(&Vec::new()), Vec::new());
    assert_eq!(rank_results(&vec![(1, 1)]), vec![(1, 1)]);
    let input = vec![(2, 1), (7, 2), (2, 3), (-1, 4), (7, 5), (2, 6), (2, 1)];
    let out = rank_results(&input);
    assert_eq!(out.len(), input.len());
    assert_eq!(out, vec![(7, 2), (7, 5), (2, 1), (2, 3), (2, 6), (2, 1), (-1, 4)]);
}

#[test]
fn sort_enc_result_ranks() {
    let key = [6u8; 16];
    let batch = vec![(enc(&key, "5"), enc(&key, "1")), (enc(&key, "9"), enc(&key, "2"))];
    assert_eq!(sort_enc_result(batch, &key), Ok(vec![(9, 2), (5, 1)]));
}

fn request(key: &[u8], pairs: &[(Vec<u8>, Vec<u8>)]) -> SortRequest {
    SortRequest {
        encrypted_results: pairs.iter().map(|(a, b)| (b64(a), b64(b))).collect(),
        index_key: b64(key),
    }
}

#[test]
fn end_to_end_request() {
    let key = [8u8; 16];
    let pairs = vec![(enc(&key, "5"), enc(&key, "1")), (enc(&key, "9"), enc(&key, "2"))];
    assert_eq!(sort_encrypted_results(&request(&key, &pairs)), Ok(vec![(9, 2), (5, 1)]));
}

#[test]
fn end_to_end_empty_batch() {
    let key = [8u8; 32];
    assert_eq!(sort_encrypted_results(&request(&key, &[])), Ok(Vec::new()));
}

#[test]
fn request_is_atomic() {
    let key = [0u8; 16];
    let pairs = vec![(enc(&key, "5"), enc(&key, "1")), (enc(&key, "9"), invalid_utf8_field(&key))];
    let r = sort_encrypted_results(&request(&key, &pairs));
    assert_eq!(
        r,
        Err(RequestError::Decode(DecodeError::Crypto(CryptoError::Utf8ConversionFailed)))
    );
    assert_eq!(r.unwrap_err().message(), "UTF-8 conversion failed");
}

#[test]
fn request_key_length_checked_after_base64() {
    let key = [8u8; 15];
    let pairs = vec![(vec![0u8; 16], vec![0u8; 16])];
    assert_eq!(
        sort_encrypted_results(&request(&key, &pairs)),
        Err(RequestError::Decode(DecodeError::Crypto(CryptoError::InvalidKeyLength)))
    );
}

#[test]
fn request_base64_failures() {
    let key = [8u8; 16];
    let good = request(&key, &[(enc(&key, "5"), enc(&key, "1"))]);

    let mut bad_field = SortRequest {
        encrypted_results: good.encrypted_results.clone(),
        index_key: good.index_key.clone(),
    };
    bad_field.encrypted_results[0].1 = "not base64!".to_string();
    assert_eq!(sort_encrypted_results(&bad_field), Err(RequestError::Base64DecodeFailed));

    let bad_key = SortRequest {
        encrypted_results: good.encrypted_results.clone(),
        index_key: "@@@".to_string(),
    };
    let r = sort_encrypted_results(&bad_key);
    assert_eq!(r, Err(RequestError::Base64DecodeFailed));
    assert_eq!(r.unwrap_err().message(), "Base64 decoding failed");

    let bad_key_and_length = SortRequest {
        encrypted_results: vec![("%%".to_string(), "AAAA".to_string())],
        index_key: b64(&[1u8; 3]),
    };
    assert_eq!(sort_encrypted_results(&bad_key_and_length), Err(RequestError::Base64DecodeFailed));
}

#[test]
fn error_messages() {
    assert_eq!(CryptoError::InvalidKeyLength.message(), "Invalid index key length");
    assert_eq!(CryptoError::DecryptionFailed.message(), "Decryption failed");
    assert_eq!(DecodeError::InvalidTermFrequencyFormat.message(), "Invalid TF format");
    assert_eq!(DecodeError::InvalidDocIdFormat.message(), "Invalid DocID format");
    assert_eq!(
        RequestError::Decode(DecodeError::Crypto(CryptoError::Utf8ConversionFailed)).message(),
        "UTF-8 conversion failed"
    );
}

#[test]
fn non_text_bytes_fail_as_conversion_for_both_strengths() {
    for key in [vec![3u8; 16], vec![3u8; 32]] {
        let ct = encrypt_bytes(&key, &[0xFFu8; 16]).unwrap();
        assert_eq!(ct.len(), 32);
        let r = decrypt_field(&key, &ct);
        assert_eq!(r, Err(CryptoError::Utf8ConversionFailed));
        let msg = r.unwrap_err().message();
        assert!(msg.starts_with("UTF-8 conversion failed"));
        assert!(!msg.contains("Decryption failed"));
    }
    let ct = encrypt_bytes(&[3u8; 16], &[0xC3u8]).unwrap();
    assert_eq!(
        symmetric_decryption_for_keyword_128bit(&[3u8; 16], &ct),
        Err(CryptoError::Utf8ConversionFailed)
    );
    let ct = encrypt_bytes(&[3u8; 32], &[0x80u8, 0x80]).unwrap();
    assert_eq!(
        symmetric_decryption_for_keyword_256bit(&[3u8; 32], &ct),
        Err(CryptoError::Utf8ConversionFailed)
    );
}

#[test]
fn encrypted_length_is_padded_length() {
    let key = [3u8; 16];
    assert_eq!(encrypt_bytes(&key, &[]).unwrap().len(), 16);
    assert_eq!(encrypt_bytes(&key, &[1u8; 15]).unwrap().len(), 16);
    assert_eq!(encrypt_bytes(&key, &[1u8; 16]).unwrap().len(), 32);
    assert_eq!(sort_enc_results::cipher::aes_ecb_encrypt(key, "Hello, World!").len(), 16);
    assert_eq!(encrypt_bytes(&[1u8; 7], &[1u8; 4]), Err(CryptoError::InvalidKeyLength));
    assert_eq!(encrypt_bytes(&[5u8; 16], b"12").unwrap(), encrypt_field(&[5u8; 16], "12").unwrap());
}
