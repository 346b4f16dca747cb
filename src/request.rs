use crate::decode::{decode_record_spec, decode_results, decode_spec, pair_bytes};
use crate::error::{DecodeError, RequestError};
use crate::rank::{is_ranking_of, rank_results};
use base64::prelude::BASE64_STANDARD;
use base64::Engine;
use vstd::prelude::*;

verus! {

/// A batch of base64-encoded (term-frequency, doc-id) ciphertext pairs and the
/// base64-encoded index key that protects them.
pub struct SortRequest {
    pub encrypted_results: Vec<(String, String)>,
    pub index_key: String,
}

/// What standard base64 (with padding) decodes `text` to, if it is well formed.
pub uninterp spec fn base64_standard_decode(text: Seq<char>) -> Option<Seq<u8>>;

/// Relies on `base64::Engine::decode` with `BASE64_STANDARD`: the bytes that a
/// well-formed standard base64 string encodes, or an error.
#[verifier::external_body]
fn decode_base64(text: &str) -> (r: Option<Vec<u8>>)
    ensures
        match r {
            Some(b) => base64_standard_decode(text@) == Some(b@),
            None => base64_standard_decode(text@) is None,
        },
{
    BASE64_STANDARD.decode(text).ok()
}

/// The outcome of a decode followed by a ranking.
pub open spec fn ranked_outcome(
    decoded: Result<Seq<(i32, i32)>, DecodeError>,
    r: Result<Vec<(i32, i32)>, DecodeError>,
) -> bool {
    match decoded {
        Err(e) => r == Err::<Vec<(i32, i32)>, DecodeError>(e),
        Ok(d) => r matches Ok(v) && is_ranking_of(v@, d),
    }
}

/// Decrypts and parses a batch of ciphertext pairs, then ranks the records by
/// descending term frequency (stable on ties). Any failure fails the batch.
pub fn sort_enc_result(enc_result_list: Vec<(Vec<u8>, Vec<u8>)>, index_key: &[u8]) -> (r: Result<
    Vec<(i32, i32)>,
    DecodeError,
>)
    ensures
        ranked_outcome(decode_spec(pair_bytes(enc_result_list@), index_key@), r),
        (exists|i: int|
            0 <= i < enc_result_list@.len() && (#[trigger] decode_record_spec(
                index_key@,
                enc_result_list@[i].0@,
                enc_result_list@[i].1@,
            )) is Err) ==> r is Err,
{
    match decode_results(&enc_result_list, index_key) {
        Err(e) => Err(e),
        Ok(plain) => Ok(rank_results(&plain)),
    }
}

/// Every field of the request is well-formed base64.
pub open spec fn all_base64(pairs: Seq<(String, String)>, key: Seq<char>) -> bool {
    &&& base64_standard_decode(key) is Some
    &&& forall|i: int|
        0 <= i < pairs.len() ==> (#[trigger] base64_standard_decode(pairs[i].0@)) is Some
            && base64_standard_decode(pairs[i].1@) is Some
}

/// The decoded bytes of every pair of a request whose fields are all well formed.
pub open spec fn decoded_pairs(pairs: Seq<(String, String)>) -> Seq<(Seq<u8>, Seq<u8>)> {
    pairs.map_values(
        |p: (String, String)|
            (base64_standard_decode(p.0@).unwrap(), base64_standard_decode(p.1@).unwrap()),
    )
}

/// The response to a request: a base64 failure anywhere comes first, then the
/// decode and the ranking of the decoded batch.
pub open spec fn response_spec(
    pairs: Seq<(String, String)>,
    key: Seq<char>,
    r: Result<Vec<(i32, i32)>, RequestError>,
) -> bool {
    if !all_base64(pairs, key) {
        r == Err::<Vec<(i32, i32)>, RequestError>(RequestError::Base64DecodeFailed)
    } else {
        match decode_spec(decoded_pairs(pairs), base64_standard_decode(key).unwrap()) {
            Err(e) => r == Err::<Vec<(i32, i32)>, RequestError>(RequestError::Decode(e)),
            Ok(d) => r matches Ok(v) && is_ranking_of(v@, d),
        }
    }
}

/// Handles one request: base64-decodes every field and the key, decrypts and
/// parses every pair, and ranks the records. Any failure at any stage gives an
/// error and no records.
pub fn sort_encrypted_results(item: &SortRequest) -> (r: Result<Vec<(i32, i32)>, RequestError>)
    ensures
        response_spec(item.encrypted_results@, item.index_key@, r),
{
    let pairs = &item.encrypted_results;
    let mut raw: Vec<(Vec<u8>, Vec<u8>)> = Vec::new();
    let mut i: usize = 0;
    while i < pairs.len()
        invariant
            pairs@ == item.encrypted_results@,
            i <= pairs@.len(),
            raw@.len() == i,
            forall|k: int|
                0 <= k < i ==> (#[trigger] base64_standard_decode(pairs@[k].0@)) is Some
                    && base64_standard_decode(pairs@[k].1@) is Some,
            pair_bytes(raw@) == decoded_pairs(pairs@.take(i as int)),
        decreases pairs@.len() - i,
    {
        let tf = match decode_base64(pairs[i].0.as_str()) {
            Some(b) => b,
            None => {
                assert(base64_standard_decode(pairs@[i as int].0@) is None);
                return Err(RequestError::Base64DecodeFailed);
            },
        };
        let doc = match decode_base64(pairs[i].1.as_str()) {
            Some(b) => b,
            None => {
                assert(base64_standard_decode(pairs@[i as int].1@) is None);
                return Err(RequestError::Base64DecodeFailed);
            },
        };
        let ghost prev = raw@;
        let ghost item_bytes = (tf@, doc@);
        raw.push((tf, doc));
        proof {
            assert(pair_bytes(raw@) =~= pair_bytes(prev).push(item_bytes));
            assert(decoded_pairs(pairs@.take(i + 1)) =~= decoded_pairs(pairs@.take(i as int)).push(
                item_bytes,
            ));
            assert(pair_bytes(raw@) =~= decoded_pairs(pairs@.take(i + 1)));
        }
        i = i + 1;
    }
    let key = match decode_base64(item.index_key.as_str()) {
        Some(k) => k,
        None => return Err(RequestError::Base64DecodeFailed),
    };
    proof {
        assert(pairs@.take(i as int) =~= pairs@);
    }
    match sort_enc_result(raw, key.as_slice()) {
        Ok(ranked) => Ok(ranked),
        Err(e) => Err(RequestError::Decode(e)),
    }
}

} // verus!
