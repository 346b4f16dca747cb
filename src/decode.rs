use crate::cipher::{decrypt_field, decrypt_spec, strength_of_len};
use crate::error::{CryptoError, DecodeError};
use vstd::prelude::*;

verus! {

pub open spec fn is_decimal_digit(c: char) -> bool {
    '0' <= c && c <= '9'
}

/// The value of a string of decimal digits, most significant first.
pub open spec fn digits_value(s: Seq<char>) -> int
    decreases s.len(),
{
    if s.len() == 0 {
        0
    } else {
        digits_value(s.drop_last()) * 10 + (s.last() as u32 - '0' as u32)
    }
}

/// The integer a base-10 numeral denotes: an optional `+` or `-` sign followed
/// by one or more ASCII digits, nothing else.
pub open spec fn decimal_value(s: Seq<char>) -> Option<int> {
    let signed = s.len() > 0 && (s[0] == '-' || s[0] == '+');
    let digits = if signed {
        s.drop_first()
    } else {
        s
    };
    if digits.len() > 0 && forall|i: int| 0 <= i < digits.len() ==> is_decimal_digit(digits[i]) {
        Some(
            if signed && s[0] == '-' {
                -digits_value(digits)
            } else {
                digits_value(digits)
            },
        )
    } else {
        None
    }
}

/// A base-10 numeral whose value fits in an `i32`.
pub open spec fn parse_i32_spec(s: Seq<char>) -> Option<i32> {
    match decimal_value(s) {
        Some(v) => if i32::MIN <= v && v <= i32::MAX {
            Some(v as i32)
        } else {
            None
        },
        None => None,
    }
}

/// Relies on `<i32 as FromStr>::from_str`: an optional `+` or `-` followed by
/// decimal digits only, whose value is in range; anything else is an error.
#[verifier::external_body]
fn parse_i32(s: &str) -> (r: Option<i32>)
    ensures
        r == parse_i32_spec(s@),
{
    s.parse::<i32>().ok()
}

/// One record: both fields decrypted, then the term frequency and the
/// document identifier parsed, in that order.
pub open spec fn decode_record_spec(key: Seq<u8>, tf_ct: Seq<u8>, doc_ct: Seq<u8>) -> Result<
    (i32, i32),
    DecodeError,
> {
    match decrypt_spec(key, tf_ct) {
        Err(e) => Err(DecodeError::Crypto(e)),
        Ok(tf_text) => match decrypt_spec(key, doc_ct) {
            Err(e) => Err(DecodeError::Crypto(e)),
            Ok(doc_text) => match parse_i32_spec(tf_text) {
                None => Err(DecodeError::InvalidTermFrequencyFormat),
                Some(tf) => match parse_i32_spec(doc_text) {
                    None => Err(DecodeError::InvalidDocIdFormat),
                    Some(doc) => Ok((tf, doc)),
                },
            },
        },
    }
}

/// Records decoded in order; the first failure is the result of the whole batch.
pub open spec fn decode_records_spec(records: Seq<(Seq<u8>, Seq<u8>)>, key: Seq<u8>) -> Result<
    Seq<(i32, i32)>,
    DecodeError,
>
    decreases records.len(),
{
    if records.len() == 0 {
        Ok(Seq::empty())
    } else {
        match decode_records_spec(records.drop_last(), key) {
            Err(e) => Err(e),
            Ok(done) => match decode_record_spec(key, records.last().0, records.last().1) {
                Err(e) => Err(e),
                Ok(r) => Ok(done.push(r)),
            },
        }
    }
}

/// A batch decode: the key's length is checked first, then every record.
pub open spec fn decode_spec(records: Seq<(Seq<u8>, Seq<u8>)>, key: Seq<u8>) -> Result<
    Seq<(i32, i32)>,
    DecodeError,
> {
    if strength_of_len(key.len()) is None {
        Err(DecodeError::Crypto(CryptoError::InvalidKeyLength))
    } else {
        decode_records_spec(records, key)
    }
}

/// The byte contents of a batch of ciphertext pairs.
pub open spec fn pair_bytes(records: Seq<(Vec<u8>, Vec<u8>)>) -> Seq<(Seq<u8>, Seq<u8>)> {
    records.map_values(|p: (Vec<u8>, Vec<u8>)| (p.0@, p.1@))
}

pub open spec fn records_view(r: Result<Vec<(i32, i32)>, DecodeError>) -> Result<
    Seq<(i32, i32)>,
    DecodeError,
> {
    match r {
        Ok(v) => Ok(v@),
        Err(e) => Err(e),
    }
}

/// Once a prefix of the batch fails, every longer prefix fails the same way.
proof fn lemma_failure_persists(
    records: Seq<(Seq<u8>, Seq<u8>)>,
    key: Seq<u8>,
    i: int,
    j: int,
    e: DecodeError,
)
    requires
        0 <= i <= j <= records.len(),
        decode_records_spec(records.take(i), key) == Err::<Seq<(i32, i32)>, DecodeError>(e),
    ensures
        decode_records_spec(records.take(j), key) == Err::<Seq<(i32, i32)>, DecodeError>(e),
    decreases j - i,
{
    if i < j {
        assert(records.take(i + 1).drop_last() =~= records.take(i));
        lemma_failure_persists(records, key, i + 1, j, e);
    }
}

/// All or nothing: a batch decodes exactly when each of its records does, and
/// then it holds each record's values, in input order.
pub proof fn lemma_batch_all_or_nothing(records: Seq<(Seq<u8>, Seq<u8>)>, key: Seq<u8>)
    ensures
        decode_records_spec(records, key) is Ok <==> forall|i: int|
            0 <= i < records.len() ==> (#[trigger] decode_record_spec(
                key,
                records[i].0,
                records[i].1,
            )) is Ok,
        decode_records_spec(records, key) matches Ok(d) ==> d.len() == records.len() && forall|
            i: int,
        |
            0 <= i < records.len() ==> Ok::<(i32, i32), DecodeError>(d[i]) == #[trigger] decode_record_spec(
                key,
                records[i].0,
                records[i].1,
            ),
    decreases records.len(),
{
    if records.len() > 0 {
        let front = records.drop_last();
        lemma_batch_all_or_nothing(front, key);
        assert forall|i: int| 0 <= i < front.len() implies front[i] == records[i] by {}
        let n = records.len() - 1;
        if decode_records_spec(front, key) is Err {
            let i = choose|i: int|
                0 <= i < front.len() && !(#[trigger] decode_record_spec(
                    key,
                    front[i].0,
                    front[i].1,
                ) is Ok);
            assert(decode_record_spec(key, records[i].0, records[i].1) is Err);
        }
    }
}

/// Decrypts and parses one record.
pub fn decode_record(key: &[u8], tf_ct: &[u8], doc_ct: &[u8]) -> (r: Result<
    (i32, i32),
    DecodeError,
>)
    ensures
        r == decode_record_spec(key@, tf_ct@, doc_ct@),
{
    let tf_text = match decrypt_field(key, tf_ct) {
        Ok(t) => t,
        Err(e) => return Err(DecodeError::Crypto(e)),
    };
    let doc_text = match decrypt_field(key, doc_ct) {
        Ok(t) => t,
        Err(e) => return Err(DecodeError::Crypto(e)),
    };
    let tf = match parse_i32(tf_text.as_str()) {
        Some(v) => v,
        None => return Err(DecodeError::InvalidTermFrequencyFormat),
    };
    let doc = match parse_i32(doc_text.as_str()) {
        Some(v) => v,
        None => return Err(DecodeError::InvalidDocIdFormat),
    };
    Ok((tf, doc))
}

/// Decrypts and parses every record of a batch, in input order. All or
/// nothing: the first failure anywhere aborts the batch, and no record is
/// returned then. A key of the wrong length fails before any decryption.
pub fn decode_results(records: &Vec<(Vec<u8>, Vec<u8>)>, index_key: &[u8]) -> (r: Result<
    Vec<(i32, i32)>,
    DecodeError,
>)
    ensures
        records_view(r) == decode_spec(pair_bytes(records@), index_key@),
        strength_of_len(index_key@.len()) is None ==> r == Err::<Vec<(i32, i32)>, DecodeError>(
            DecodeError::Crypto(CryptoError::InvalidKeyLength),
        ),
        r matches Ok(v) ==> v@.len() == records@.len(),
        (exists|i: int|
            0 <= i < records@.len() && (#[trigger] decode_record_spec(
                index_key@,
                records@[i].0@,
                records@[i].1@,
            )) is Err) ==> r is Err,
{
    if index_key.len() != 16 && index_key.len() != 32 {
        return Err(DecodeError::Crypto(CryptoError::InvalidKeyLength));
    }
    let ghost pairs = pair_bytes(records@);
    let mut out: Vec<(i32, i32)> = Vec::new();
    let mut i: usize = 0;
    while i < records.len()
        invariant
            0 <= i <= records@.len(),
            pairs == pair_bytes(records@),
            strength_of_len(index_key@.len()) is Some,
            decode_records_spec(pairs.take(i as int), index_key@) == Ok::<
                Seq<(i32, i32)>,
                DecodeError,
            >(out@),
            out@.len() == i,
        decreases records@.len() - i,
    {
        let rec = decode_record(index_key, records[i].0.as_slice(), records[i].1.as_slice());
        proof {
            assert(pairs.take(i + 1).drop_last() =~= pairs.take(i as int));
            assert(pairs.take(i + 1).last() == pairs[i as int]);
        }
        match rec {
            Ok(r) => {
                out.push(r);
            },
            Err(e) => {
                proof {
                    lemma_failure_persists(pairs, index_key@, i + 1, pairs.len() as int, e);
                    assert(pairs.take(pairs.len() as int) =~= pairs);
                }
                return Err(e);
            },
        }
        i = i + 1;
    }
    proof {
        assert(pairs.take(i as int) =~= pairs);
        lemma_batch_all_or_nothing(pairs, index_key@);
        assert forall|k: int| 0 <= k < records@.len() implies (#[trigger] decode_record_spec(
            index_key@,
            records@[k].0@,
            records@[k].1@,
        )) is Ok by {
            assert(pairs[k] == (records@[k].0@, records@[k].1@));
            assert(decode_record_spec(index_key@, pairs[k].0, pairs[k].1) is Ok);
        }
    }
    Ok(out)
}

} // verus!
