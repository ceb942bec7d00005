//! Stored objects: the zlib stream of an uncompressed object.
use crate::codec::{lemma_payload_round_trip, object_bytes, object_seq, parse_object, payload_of};
use crate::error::StoreError;
use vstd::prelude::*;

verus! {

/// The zlib stream that the encoder produces for `data` at the default level.
pub uninterp spec fn zlib_deflated(data: Seq<u8>) -> Seq<u8>;

/// What the zlib stream at the start of `data` inflates to; `None` where it is
/// malformed or cut short.
pub uninterp spec fn zlib_inflated(data: Seq<u8>) -> Option<Seq<u8>>;

/// Relies on `flate2::write::ZlibEncoder` over a `Vec` at
/// `flate2::Compression::default()`: writing all of `data` and finishing the
/// encoder yields the zlib stream of `data`. Writes into a `Vec` never fail and
/// the miniz_oxide backend fails only on parameters that are not used here, so
/// the encoder always succeeds.
#[verifier::external_body]
fn zlib_compress(data: &[u8]) -> (r: Option<Vec<u8>>)
    ensures
        r is Some,
        r matches Some(z) ==> z@ == zlib_deflated(data@),
{
    let mut enc = flate2::write::ZlibEncoder::new(Vec::new(), flate2::Compression::default());
    match std::io::Write::write_all(&mut enc, data) {
        Ok(()) => enc.finish().ok(),
        Err(_) => None,
    }
}

/// Relies on `flate2::read::ZlibDecoder` read to its end: it yields what the
/// zlib stream in `data` inflates to, and fails where the stream is malformed
/// or cut short. Inflation undoes compression, so the stream that the encoder
/// produced for some bytes inflates back to exactly those bytes.
#[verifier::external_body]
fn zlib_decompress(data: &[u8]) -> (r: Option<Vec<u8>>)
    ensures
        r matches Some(v) ==> zlib_inflated(data@) == Some(v@),
        r is None <==> zlib_inflated(data@) is None,
        r matches Some(v) ==> forall|x: Seq<u8>| #[trigger] zlib_deflated(x) == data@ ==> v@ == x,
        r is None ==> forall|x: Seq<u8>| #[trigger] zlib_deflated(x) != data@,
{
    let mut out = Vec::new();
    match std::io::Read::read_to_end(&mut flate2::read::ZlibDecoder::new(data), &mut out) {
        Ok(_) => Some(out),
        Err(_) => None,
    }
}

/// The payload that a stored object carries, if it inflates and is well formed.
pub open spec fn stored_payload(stored: Seq<u8>) -> Option<Seq<u8>> {
    match zlib_inflated(stored) {
        Some(raw) => payload_of(raw),
        None => None,
    }
}

/// The stored form of `payload`: the zlib stream of `"blob <len>\0"` followed
/// by the payload. It always succeeds; the `Result` keeps `DestinationUnwritable`
/// as the one failure a compressor could report.
pub fn compress_object(payload: &[u8]) -> (r: Result<Vec<u8>, StoreError>)
    ensures
        r is Ok,
        r matches Ok(z) ==> z@ == zlib_deflated(object_seq(payload@)),
{
    let raw = object_bytes(payload);
    match zlib_compress(raw.as_slice()) {
        Some(z) => Ok(z),
        None => Err(StoreError::DestinationUnwritable),
    }
}

/// Inflates a stored object without interpreting it. A stream that does not
/// inflate is `CorruptObject`; the stored form of an object inflates back to it.
pub fn inflate_object(stored: &[u8]) -> (r: Result<Vec<u8>, StoreError>)
    ensures
        match r {
            Ok(raw) => zlib_inflated(stored@) == Some(raw@),
            Err(e) => e == StoreError::CorruptObject && zlib_inflated(stored@) is None,
        },
        forall|x: Seq<u8>| #[trigger] zlib_deflated(x) == stored@ ==> (r matches Ok(v) && v@ == x),
{
    match zlib_decompress(stored) {
        Some(raw) => Ok(raw),
        None => Err(StoreError::CorruptObject),
    }
}

/// The payload of a stored object: inflate it, then parse the header and take
/// exactly the declared number of bytes. Whatever does not inflate or parse is
/// `CorruptObject`. The stored form of any payload decodes back to it.
pub fn decode_object(stored: &[u8]) -> (r: Result<Vec<u8>, StoreError>)
    ensures
        match r {
            Ok(p) => stored_payload(stored@) == Some(p@),
            Err(e) => e == StoreError::CorruptObject && stored_payload(stored@) is None,
        },
        forall|p: Seq<u8>| #[trigger]
            zlib_deflated(object_seq(p)) == stored@ ==> (r matches Ok(v) && v@ == p),
{
    let raw = inflate_object(stored)?;
    let r = parse_object(raw.as_slice());
    proof {
        assert forall|p: Seq<u8>| #[trigger]
            zlib_deflated(object_seq(p)) == stored@ implies (r matches Ok(v) && v@ == p) by {
            lemma_payload_round_trip(p);
        }
    }
    r
}

} // verus!
