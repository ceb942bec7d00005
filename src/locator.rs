//! Where an object lives: `<objects root>/<first two digest characters>/<the
//! other thirty-eight>`.
use crate::error::StoreError;
use vstd::prelude::*;
use vstd::string::{StrSliceExecFns, StringExecFns};

verus! {

pub open spec fn is_hex_char(c: char) -> bool {
    ('0' <= c <= '9') || ('a' <= c <= 'f') || ('A' <= c <= 'F')
}

/// Exactly forty hexadecimal characters, in either case.
pub open spec fn is_hex_digest(d: Seq<char>) -> bool {
    &&& d.len() == 40
    &&& forall|i: int| 0 <= i < d.len() ==> is_hex_char(#[trigger] d[i])
}

/// The path of the object named `d` under `root`.
pub open spec fn object_path(root: Seq<char>, d: Seq<char>) -> Seq<char> {
    root + seq!['/'] + d.subrange(0, 2) + seq!['/'] + d.subrange(2, 40)
}

fn is_hex(c: char) -> (r: bool)
    ensures
        r == is_hex_char(c),
{
    ('0' <= c && c <= '9') || ('a' <= c && c <= 'f') || ('A' <= c && c <= 'F')
}

/// Whether `digest` is exactly forty hexadecimal characters.
pub fn is_valid_digest(digest: &str) -> (r: bool)
    ensures
        r == is_hex_digest(digest@),
{
    let len = digest.unicode_len();
    if len != 40 {
        return false;
    }
    let mut i: usize = 0;
    while i < 40
        invariant
            i <= 40,
            digest@.len() == 40,
            forall|j: int| 0 <= j < i ==> is_hex_char(#[trigger] digest@[j]),
        decreases 40 - i,
    {
        if !is_hex(digest.get_char(i)) {
            return false;
        }
        i += 1;
    }
    true
}

/// The path of the object named `digest` under `objects_root`:
/// `<objects_root>/<digest[0..2]>/<digest[2..40]>`. A digest that is not forty
/// hexadecimal characters is `InvalidDigest`.
pub fn locate(objects_root: &str, digest: &str) -> (r: Result<String, StoreError>)
    ensures
        match r {
            Ok(p) => is_hex_digest(digest@) && p@ == object_path(objects_root@, digest@),
            Err(e) => e == StoreError::InvalidDigest && !is_hex_digest(digest@),
        },
{
    if !is_valid_digest(digest) {
        return Err(StoreError::InvalidDigest);
    }
    proof {
        reveal_strlit("/");
    }
    let mut p = String::from_str(objects_root);
    p.append("/");
    p.append(digest.substring_char(0, 2));
    p.append("/");
    p.append(digest.substring_char(2, 40));
    Ok(p)
}

} // verus!
