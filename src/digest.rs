//! Object digests: the SHA-1 of an uncompressed object, as forty lowercase
//! hexadecimal characters.
use crate::codec::{object_bytes, object_seq};
use crate::locator::{is_hex_char, is_hex_digest};
use vstd::prelude::*;

verus! {

/// The SHA-1 digest of `data`.
pub uninterp spec fn sha1_of(data: Seq<u8>) -> Seq<u8>;

/// The lowercase hexadecimal character for a value below sixteen.
pub open spec fn hex_char(v: int) -> char {
    seq!['0', '1', '2', '3', '4', '5', '6', '7', '8', '9', 'a', 'b', 'c', 'd', 'e', 'f'][v]
}

proof fn lemma_hex_char_is_hex(v: int)
    requires
        0 <= v < 16,
    ensures
        is_hex_char(hex_char(v)),
{
    let t = seq!['0', '1', '2', '3', '4', '5', '6', '7', '8', '9', 'a', 'b', 'c', 'd', 'e', 'f'];
    assert(t[v] == hex_char(v));
    assert(t.len() == 16);
}

/// Two lowercase hexadecimal characters per byte, high nibble first.
pub open spec fn hex_lower(b: Seq<u8>) -> Seq<char> {
    Seq::new(
        2 * b.len(),
        |i: int|
            if i % 2 == 0 {
                hex_char(b[i / 2] as int / 16)
            } else {
                hex_char(b[i / 2] as int % 16)
            },
    )
}

/// The digest that names the object holding `payload`.
pub open spec fn object_digest(payload: Seq<u8>) -> Seq<char> {
    hex_lower(sha1_of(object_seq(payload)))
}

/// Relies on `sha1::Sha1` through `digest::Digest::digest`: the SHA-1 digest of
/// `data`, whose output size is twenty bytes.
#[verifier::external_body]
fn sha1_digest(data: &[u8]) -> (r: Vec<u8>)
    ensures
        r@ == sha1_of(data@),
        r@.len() == 20,
{
    <sha1::Sha1 as sha1::Digest>::digest(data).to_vec()
}

/// Relies on `hex::encode`: each byte becomes two characters of
/// `"0123456789abcdef"`, high nibble first.
#[verifier::external_body]
fn hex_encode(data: &[u8]) -> (r: String)
    ensures
        r@ == hex_lower(data@),
{
    hex::encode(data)
}

/// The digest of the object that holds `payload`: SHA-1 over
/// `"blob <len>\0"` followed by the payload, in lowercase hexadecimal.
pub fn hash_object(payload: &[u8]) -> (r: String)
    ensures
        r@ == object_digest(payload@),
        r@.len() == 40,
        is_hex_digest(r@),
{
    let raw = object_bytes(payload);
    let sum = sha1_digest(raw.as_slice());
    let r = hex_encode(sum.as_slice());
    proof {
        assert forall|i: int| 0 <= i < r@.len() implies is_hex_char(#[trigger] r@[i]) by {
            lemma_hex_char_is_hex(sum@[i / 2] as int / 16);
            lemma_hex_char_is_hex(sum@[i / 2] as int % 16);
        }
    }
    r
}

} // verus!
