//! The byte encoding of a snapshot. The encoding itself is bincode's; this
//! module gives its two directions a name and a contract.

use crate::model::{distinct_keys, from_pairs, lemma_from_pairs_distinct, lemma_from_pairs_identity};
use vstd::prelude::*;

verus! {

/// bincode's error type, carried through unread.
#[verifier::external_type_specification]
#[verifier::external_body]
pub struct ExErrorKind(bincode::ErrorKind);

/// The bytes that bincode writes for a list of records, or `None` where it
/// reports an error.
pub uninterp spec fn encoding(records: Seq<(Seq<char>, (Seq<char>, Option<u64>))>) -> Option<
    Seq<u8>,
>;

/// The list of records that bincode reads from `bytes`, or `None` where it
/// rejects them.
pub uninterp spec fn decoding(bytes: Seq<u8>) -> Option<
    Seq<(Seq<char>, (Seq<char>, Option<u64>))>,
>;

/// Calls `bincode::serialize` on a list of key/entry pairs.
///
/// Trusted: the outcome is a function of the strings and numbers in the
/// list alone, and bytes that come out of it are read back by
/// `bincode::deserialize` as the same list. Nothing is claimed about
/// whether the call succeeds.
#[verifier::external_body]
pub(crate) fn encode_pairs(pairs: &Vec<(String, (String, Option<u64>))>) -> (r: Result<
    Vec<u8>,
    Box<bincode::ErrorKind>,
>)
    ensures
        match r {
            Ok(bytes) => encoding(pairs.deep_view()) == Some(bytes@) && decoding(bytes@) == Some(
                pairs.deep_view(),
            ),
            Err(_) => encoding(pairs.deep_view()) is None,
        },
{
    bincode::serialize(pairs)
}

/// Calls `bincode::deserialize` to read a list of key/entry pairs.
///
/// Trusted: whether the bytes are accepted, and the list read from them,
/// are a function of the bytes alone; and input too short to hold the
/// eight-byte count that a list starts with is rejected.
#[verifier::external_body]
pub(crate) fn decode_pairs(bytes: &[u8]) -> (r: Result<
    Vec<(String, (String, Option<u64>))>,
    Box<bincode::ErrorKind>,
>)
    ensures
        match r {
            Ok(pairs) => decoding(bytes@) == Some(pairs.deep_view()),
            Err(_) => decoding(bytes@) is None,
        },
        bytes@.len() < 8 ==> r is Err,
{
    bincode::deserialize(bytes)
}

/// The snapshot of a list of records: its encoding, or no bytes at all
/// where the encoder fails.
pub open spec fn snapshot_of(records: Seq<(Seq<char>, (Seq<char>, Option<u64>))>) -> Seq<u8> {
    match encoding(records) {
        Some(bytes) => bytes,
        None => Seq::empty(),
    }
}

/// The records held after loading `bytes` over `records`: those read from
/// the bytes, stored in turn, or `records` untouched where the bytes are
/// rejected.
pub open spec fn restored(
    records: Seq<(Seq<char>, (Seq<char>, Option<u64>))>,
    bytes: Seq<u8>,
) -> Seq<(Seq<char>, (Seq<char>, Option<u64>))> {
    match decoding(bytes) {
        Some(pairs) => from_pairs(pairs),
        None => records,
    }
}

/// Bytes that decode to records with distinct keys restore exactly those
/// records, whatever was held before.
pub proof fn lemma_restored_exactly(
    records: Seq<(Seq<char>, (Seq<char>, Option<u64>))>,
    prior: Seq<(Seq<char>, (Seq<char>, Option<u64>))>,
    bytes: Seq<u8>,
)
    requires
        distinct_keys(records),
    ensures
        decoding(bytes) == Some(records) ==> restored(prior, bytes) == records,
{
    lemma_from_pairs_identity(records);
}

/// Bytes that do not decode leave the records as they were; whatever the
/// bytes, what is held afterwards has distinct keys if it had before.
pub proof fn lemma_restored_or_kept(
    prior: Seq<(Seq<char>, (Seq<char>, Option<u64>))>,
    bytes: Seq<u8>,
)
    requires
        distinct_keys(prior),
    ensures
        decoding(bytes) is None ==> restored(prior, bytes) == prior,
        distinct_keys(restored(prior, bytes)),
{
    if decoding(bytes) is Some {
        lemma_from_pairs_distinct(decoding(bytes)->0);
    }
}

/// The bytes to hand out for an encoder outcome: the encoded bytes, or an
/// empty buffer in place of a failure.
pub fn bytes_or_empty(encoded: Option<Vec<u8>>) -> (bytes: Vec<u8>)
    ensures
        bytes@ == match encoded {
            Some(b) => b@,
            None => Seq::<u8>::empty(),
        },
{
    match encoded {
        Some(b) => b,
        None => Vec::new(),
    }
}

} // verus!
