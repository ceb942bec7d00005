//! The decisions of the read and write paths, and the laws that tie the
//! object format, its digest and its stored form together.
use crate::codec::{
    all_digits, blob_prefix, decimal, digits_value, header, lemma_decimal_digits,
    lemma_payload_round_trip, object_seq, payload_of,
};
use crate::digest::object_digest;
use crate::error::StoreError;
use crate::zlib::{decode_object, stored_payload, zlib_deflated};
use vstd::prelude::*;

verus! {

/// Whether a write must create the object file: only when the object is to be
/// persisted and no file exists yet at its path. An existing object is never
/// rewritten, so a second persisted write of the same payload writes nothing.
pub fn should_store(persist: bool, already_present: bool) -> (r: bool)
    ensures
        r == (persist && !already_present),
        already_present ==> !r,
{
    persist && !already_present
}

/// The payload for the contents of an object file, or `ObjectNotFound` where
/// no file exists (`None`). Contents that do not decode are `CorruptObject`.
pub fn read_stored(contents: Option<Vec<u8>>) -> (r: Result<Vec<u8>, StoreError>)
    ensures
        contents is None ==> r == Err::<Vec<u8>, StoreError>(StoreError::ObjectNotFound),
        contents matches Some(c) ==> match r {
            Ok(p) => stored_payload(c@) == Some(p@),
            Err(e) => e == StoreError::CorruptObject && stored_payload(c@) is None,
        },
        contents matches Some(c) ==> forall|p: Seq<u8>| #[trigger]
            zlib_deflated(object_seq(p)) == c@ ==> (r matches Ok(v) && v@ == p),
{
    match contents {
        None => Err(StoreError::ObjectNotFound),
        Some(c) => decode_object(c.as_slice()),
    }
}

/// The digest is a function of the payload alone: equal payloads have equal
/// digests.
pub proof fn lemma_digest_deterministic(p: Seq<u8>, q: Seq<u8>)
    requires
        p == q,
    ensures
        object_digest(p) == object_digest(q),
{
}

/// Distinct payloads are framed as distinct byte streams, so the stream that
/// is hashed changes with any change of the payload.
pub proof fn lemma_distinct_payloads_distinct_objects(p: Seq<u8>, q: Seq<u8>)
    requires
        p != q,
    ensures
        object_seq(p) != object_seq(q),
{
    lemma_payload_round_trip(p);
    lemma_payload_round_trip(q);
}

/// The uncompressed object for a payload of length `L` is `"blob "`, the
/// decimal digits of `L`, a NUL, and then exactly the `L` payload bytes.
pub proof fn lemma_header_layout(p: Seq<u8>)
    ensures
        object_seq(p) == blob_prefix() + decimal(p.len()) + seq![0u8] + p,
        object_seq(p).subrange(0, header(p.len()).len() as int) == header(p.len()),
        object_seq(p).len() == header(p.len()).len() + p.len(),
        all_digits(decimal(p.len())),
        digits_value(decimal(p.len())) == p.len(),
        payload_of(object_seq(p)) == Some(p),
{
    lemma_decimal_digits(p.len());
    lemma_payload_round_trip(p);
    assert(object_seq(p).subrange(0, header(p.len()).len() as int) =~= header(p.len()));
}

} // verus!
