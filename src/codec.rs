//! The uncompressed object format: `blob <decimal length>\0` followed by the
//! payload bytes.
use crate::error::StoreError;
use vstd::prelude::*;
use vstd::slice::{slice_subrange, slice_to_vec};

verus! {

/// The type token and the space after it: `"blob "`.
pub open spec fn blob_prefix() -> Seq<u8> {
    seq![98u8, 108u8, 111u8, 98u8, 32u8]
}

/// ASCII decimal digits of `n`, with no leading zeros (`"0"` for zero).
pub open spec fn decimal(n: nat) -> Seq<u8>
    decreases n,
{
    if n < 10 {
        seq![(48 + n) as u8]
    } else {
        decimal(n / 10).push((48 + n % 10) as u8)
    }
}

/// The header of a blob of `len` bytes: `"blob <len>\0"`.
pub open spec fn header(len: nat) -> Seq<u8> {
    blob_prefix() + decimal(len) + seq![0u8]
}

/// The uncompressed object for `payload`: its header, then the payload.
pub open spec fn object_seq(payload: Seq<u8>) -> Seq<u8> {
    header(payload.len()) + payload
}

pub open spec fn is_digit(b: u8) -> bool {
    48 <= b <= 57
}

pub open spec fn all_digits(s: Seq<u8>) -> bool {
    forall|i: int| 0 <= i < s.len() ==> is_digit(#[trigger] s[i])
}

/// The number that a sequence of ASCII decimal digits denotes.
pub open spec fn digits_value(s: Seq<u8>) -> nat
    decreases s.len(),
{
    if s.len() == 0 {
        0
    } else {
        digits_value(s.drop_last()) * 10 + (s.last() - 48) as nat
    }
}

/// `n` is the position of the first NUL byte of `raw`.
pub open spec fn is_first_nul(raw: Seq<u8>, n: int) -> bool {
    &&& 0 <= n < raw.len()
    &&& raw[n] == 0
    &&& forall|j: int| 0 <= j < n ==> raw[j] != 0
}

/// The payload that an uncompressed object carries, if it is well formed: the
/// header runs to the first NUL, starts with `"blob "`, and the rest of it is a
/// non-empty decimal length `L`; the payload is the `L` bytes after the NUL,
/// and whatever follows them is ignored.
pub open spec fn payload_of(raw: Seq<u8>) -> Option<Seq<u8>> {
    if exists|n: int| is_first_nul(raw, n) {
        let n = choose|n: int| is_first_nul(raw, n);
        let text = raw.subrange(5, n);
        if 5 < n && raw.subrange(0, 5) == blob_prefix() && all_digits(text) && n + 1
            + digits_value(text) <= raw.len() {
            Some(raw.subrange(n + 1, n + 1 + digits_value(text)))
        } else {
            None
        }
    } else {
        None
    }
}

proof fn lemma_first_nul_unique(raw: Seq<u8>, a: int, b: int)
    requires
        is_first_nul(raw, a),
        is_first_nul(raw, b),
    ensures
        a == b,
{
}

/// `payload_of`, once the first NUL is known to be at `n`.
proof fn lemma_payload_at(raw: Seq<u8>, n: int)
    requires
        is_first_nul(raw, n),
    ensures
        payload_of(raw) == (if 5 < n && raw.subrange(0, 5) == blob_prefix() && all_digits(
            raw.subrange(5, n),
        ) && n + 1 + digits_value(raw.subrange(5, n)) <= raw.len() {
            Some(raw.subrange(n + 1, n + 1 + digits_value(raw.subrange(5, n))))
        } else {
            None
        }),
{
    let c = choose|m: int| is_first_nul(raw, m);
    lemma_first_nul_unique(raw, c, n);
}

/// The decimal digits of `n` are a non-empty run of digits that denotes `n`.
pub proof fn lemma_decimal_digits(n: nat)
    ensures
        decimal(n).len() > 0,
        all_digits(decimal(n)),
        digits_value(decimal(n)) == n,
    decreases n,
{
    if n >= 10 {
        lemma_decimal_digits(n / 10);
        assert(decimal(n).drop_last() == decimal(n / 10));
        assert(decimal(n).last() == (48 + n % 10) as u8);
        assert(n == (n / 10) * 10 + n % 10);
    } else {
        assert(decimal(n).drop_last() =~= Seq::<u8>::empty());
        assert(decimal(n).last() == (48 + n) as u8);
        assert(digits_value(Seq::<u8>::empty()) == 0);
    }
}

/// A longer run of digits never denotes a smaller number than its prefix.
proof fn lemma_digits_prefix_le(s: Seq<u8>, k: int)
    requires
        all_digits(s),
        0 <= k <= s.len(),
    ensures
        digits_value(s.subrange(0, k)) <= digits_value(s),
    decreases s.len(),
{
    if k < s.len() {
        let t = s.drop_last();
        lemma_digits_prefix_le(t, k);
        assert(t.subrange(0, k) == s.subrange(0, k));
        let v = digits_value(t);
        assert(v <= v * 10 + (s.last() - 48) as nat) by (nonlinear_arith);
    } else {
        assert(s.subrange(0, k) == s);
    }
}

/// Appends the decimal digits of `n` to `out`.
pub fn push_decimal(n: usize, out: &mut Vec<u8>)
    ensures
        final(out)@ == old(out)@ + decimal(n as nat),
    decreases n,
{
    if n >= 10 {
        push_decimal(n / 10, out);
    }
    let d: u8 = (n % 10) as u8;
    out.push(48u8 + d);
}

/// The uncompressed object for `payload`: `"blob <len>\0"` then the payload.
pub fn object_bytes(payload: &[u8]) -> (r: Vec<u8>)
    ensures
        r@ == object_seq(payload@),
{
    let mut out: Vec<u8> = vec![98u8, 108u8, 111u8, 98u8, 32u8];
    push_decimal(payload.len(), &mut out);
    out.push(0u8);
    assert(out@ == header(payload@.len()));
    let ghost start = out@;
    let mut i: usize = 0;
    while i < payload.len()
        invariant
            i <= payload@.len(),
            out@ == start + payload@.subrange(0, i as int),
        decreases payload@.len() - i,
    {
        out.push(payload[i]);
        i += 1;
        assert(out@ == start + payload@.subrange(0, i as int));
    }
    assert(payload@.subrange(0, payload@.len() as int) == payload@);
    out
}

/// Extracts the payload of an uncompressed object. The header is scanned up to
/// its first NUL; it must be `"blob "` followed by decimal digits, and exactly
/// that many bytes must follow the NUL. Anything else is `CorruptObject`.
pub fn parse_object(raw: &[u8]) -> (r: Result<Vec<u8>, StoreError>)
    ensures
        match r {
            Ok(p) => payload_of(raw@) == Some(p@),
            Err(e) => e == StoreError::CorruptObject && payload_of(raw@) is None,
        },
{
    let mut n: usize = 0;
    while n < raw.len() && raw[n] != 0
        invariant
            n <= raw@.len(),
            forall|j: int| 0 <= j < n ==> raw@[j] != 0,
        decreases raw@.len() - n,
    {
        n += 1;
    }
    if n == raw.len() {
        assert(!exists|m: int| is_first_nul(raw@, m));
        return Err(StoreError::CorruptObject);
    }
    proof {
        lemma_payload_at(raw@, n as int);
    }
    if n <= 5 || raw[0] != 98 || raw[1] != 108 || raw[2] != 111 || raw[3] != 98 || raw[4] != 32 {
        assert(n <= 5 || raw@.subrange(0, 5)[0] != blob_prefix()[0] || raw@.subrange(0, 5)[1]
            != blob_prefix()[1] || raw@.subrange(0, 5)[2] != blob_prefix()[2] || raw@.subrange(
            0,
            5,
        )[3] != blob_prefix()[3] || raw@.subrange(0, 5)[4] != blob_prefix()[4]);
        return Err(StoreError::CorruptObject);
    }
    assert(raw@.subrange(0, 5) =~= blob_prefix());
    let ghost text = raw@.subrange(5, n as int);
    let avail: usize = raw.len() - n - 1;
    let mut value: usize = 0;
    let mut i: usize = 5;
    while i < n
        invariant
            5 <= i <= n,
            is_first_nul(raw@, n as int),
            raw@.subrange(0, 5) == blob_prefix(),
            avail == raw@.len() - n - 1,
            text == raw@.subrange(5, n as int),
            all_digits(text.subrange(0, i - 5)),
            value == digits_value(text.subrange(0, i - 5)),
            value <= avail,
        decreases n - i,
    {
        let b = raw[i];
        if b < 48 || b > 57 {
            assert(!is_digit(text[i - 5]));
            proof {
                lemma_payload_at(raw@, n as int);
            }
            return Err(StoreError::CorruptObject);
        }
        let d: usize = (b - 48) as usize;
        let ghost next = text.subrange(0, i - 4);
        assert(next.drop_last() == text.subrange(0, i - 5));
        assert(all_digits(next));
        if d > avail || value > (avail - d) / 10 {
            assert(digits_value(next) > avail) by (nonlinear_arith)
                requires
                    digits_value(next) == value * 10 + d,
                    d > avail || value > (avail - d) / 10,
            ;
            proof {
                if all_digits(text) {
                    lemma_digits_prefix_le(text, i - 4);
                    assert(text.subrange(0, i - 4) == next);
                }
                lemma_payload_at(raw@, n as int);
            }
            return Err(StoreError::CorruptObject);
        }
        assert(value * 10 + d <= avail) by (nonlinear_arith)
            requires
                d <= avail,
                value <= (avail - d) / 10,
        ;
        value = value * 10 + d;
        i += 1;
    }
    assert(text.subrange(0, n - 5) == text);
    let p = slice_to_vec(slice_subrange(raw, n + 1, n + 1 + value));
    Ok(p)
}

/// Framing a payload and extracting it again gives back the payload.
pub proof fn lemma_payload_round_trip(payload: Seq<u8>)
    ensures
        payload_of(object_seq(payload)) == Some(payload),
{
    let raw = object_seq(payload);
    let digits = decimal(payload.len());
    lemma_decimal_digits(payload.len());
    let n: int = 5 + digits.len() as int;
    assert(raw[n] == 0);
    assert forall|j: int| 0 <= j < n implies raw[j] != 0 by {
        if j >= 5 {
            assert(raw[j] == digits[j - 5]);
            assert(is_digit(digits[j - 5]));
        }
    }
    lemma_payload_at(raw, n);
    assert(raw.subrange(5, n) =~= digits);
    assert(raw.subrange(0, 5) =~= blob_prefix());
    assert(raw.subrange(n + 1, n + 1 + payload.len()) =~= payload);
}

} // verus!
