//! Lower-case hexadecimal encoding and (case-insensitive) decoding of bytes.
use vstd::prelude::*;
use vstd::utf8::*;

use crate::error::Error;
use crate::text::{char_from_u32_small, push_char, push_str};

verus! {

/// The lower-case hex digit for a value below 16.
pub open spec fn hex_digit(v: u8) -> char {
    if v < 10 {
        ((48 + v) as u32) as char
    } else {
        ((87 + v) as u32) as char
    }
}

/// Lower-case hex encoding: two digits per byte, high nibble first.
pub open spec fn hex_lower(bytes: Seq<u8>) -> Seq<char>
    decreases bytes.len(),
{
    if bytes.len() == 0 {
        seq![]
    } else {
        hex_lower(bytes.drop_last()) + seq![hex_digit(bytes.last() / 16), hex_digit(bytes.last() % 16)]
    }
}

/// The value of an ASCII hex digit (either case), if it is one.
pub open spec fn hex_value(b: u8) -> Option<u8> {
    if 48 <= b <= 57 {
        Some((b - 48) as u8)
    } else if 97 <= b <= 102 {
        Some((b - 87) as u8)
    } else if 65 <= b <= 70 {
        Some((b - 55) as u8)
    } else {
        None
    }
}

/// Hex decoding of the bytes of a string: `None` on an odd length or a
/// non-hex byte.
pub open spec fn hex_decode_bytes(b: Seq<u8>) -> Option<Seq<u8>>
    decreases b.len(),
{
    if b.len() % 2 != 0 {
        None
    } else if b.len() == 0 {
        Some(seq![])
    } else {
        match (hex_decode_bytes(b.take(b.len() - 2)), hex_value(b[b.len() - 2]), hex_value(b[b.len() - 1])) {
            (Some(init), Some(hi), Some(lo)) => Some(init.push((hi * 16 + lo) as u8)),
            _ => None,
        }
    }
}

/// Hex decoding of a string (its UTF-8 bytes).
pub open spec fn hex_decode_spec(s: Seq<char>) -> Option<Seq<u8>> {
    hex_decode_bytes(encode_utf8(s))
}

fn digit_char(v: u8) -> (c: char)
    requires
        v < 16,
    ensures
        c == hex_digit(v),
{
    if v < 10 {
        char_from_u32_small((48 + v) as u32)
    } else {
        char_from_u32_small((87 + v) as u32)
    }
}

proof fn lemma_hex_lower_len(bytes: Seq<u8>)
    ensures
        hex_lower(bytes).len() == 2 * bytes.len(),
    decreases bytes.len(),
{
    if bytes.len() > 0 {
        lemma_hex_lower_len(bytes.drop_last());
    }
}

/// A lower-case hex digit: `0`-`9` or `a`-`f`.
pub open spec fn is_lower_hex_digit(c: char) -> bool {
    ('0' <= c && c <= '9') || ('a' <= c && c <= 'f')
}

/// The lower-case hex encoding has two digits per byte, all of them lower-case hex digits.
pub proof fn lemma_hex_lower_shape(bytes: Seq<u8>)
    ensures
        hex_lower(bytes).len() == 2 * bytes.len(),
        forall|i: int| 0 <= i < hex_lower(bytes).len() ==> is_lower_hex_digit(#[trigger] hex_lower(bytes)[i]),
    decreases bytes.len(),
{
    lemma_hex_lower_len(bytes);
    if bytes.len() > 0 {
        let init = bytes.drop_last();
        lemma_hex_lower_shape(init);
        let hi = bytes.last() / 16;
        let lo = bytes.last() % 16;
        let tail = seq![hex_digit(hi), hex_digit(lo)];
        assert forall|v: u8| v < 16 implies is_lower_hex_digit(#[trigger] hex_digit(v)) by {
            if v < 10 {
                assert(((48 + v) as u32) as char as u32 == 48 + v);
            } else {
                assert(((87 + v) as u32) as char as u32 == 87 + v);
            }
        }
        assert forall|i: int| 0 <= i < hex_lower(bytes).len() implies is_lower_hex_digit(#[trigger] hex_lower(bytes)[i]) by {
            if i < hex_lower(init).len() {
                assert(hex_lower(bytes)[i] == hex_lower(init)[i]);
            } else {
                assert(hex_lower(bytes)[i] == tail[i - hex_lower(init).len()]);
                assert(is_lower_hex_digit(hex_digit(hi)));
                assert(is_lower_hex_digit(hex_digit(lo)));
            }
        }
    }
}

/// Lower-case hex encoding of `bytes`.
pub fn encode(bytes: &[u8]) -> (s: String)
    ensures
        s@ == hex_lower(bytes@),
        s@.len() == 2 * bytes@.len(),
        forall|i: int| 0 <= i < s@.len() ==> is_lower_hex_digit(#[trigger] s@[i]),
{
    proof {
        lemma_hex_lower_shape(bytes@);
    }
    let mut s = String::new();
    let n = bytes.len();
    for i in 0..n
        invariant
            n == bytes@.len(),
            s@ == hex_lower(bytes@.take(i as int)),
    {
        let b = bytes[i];
        push_char(&mut s, digit_char(b / 16));
        push_char(&mut s, digit_char(b % 16));
        assert(bytes@.take(i + 1).drop_last() == bytes@.take(i as int));
        assert(s@ == hex_lower(bytes@.take(i as int)) + seq![hex_digit(b / 16), hex_digit(b % 16)]);
    }
    assert(bytes@.take(n as int) == bytes@);
    s
}

fn digit_value(b: u8) -> (r: Option<u8>)
    ensures
        r == hex_value(b),
        r matches Some(v) ==> v < 16,
{
    if 48 <= b && b <= 57 {
        Some(b - 48)
    } else if 97 <= b && b <= 102 {
        Some(b - 87)
    } else if 65 <= b && b <= 70 {
        Some(b - 55)
    } else {
        None
    }
}

proof fn lemma_decode_prefix_none(b: Seq<u8>, k: int)
    requires
        b.len() % 2 == 0,
        0 <= k <= b.len(),
        k % 2 == 0,
        hex_decode_bytes(b.take(k)) is None,
    ensures
        hex_decode_bytes(b) is None,
    decreases b.len() - k,
{
    if k < b.len() {
        let k2 = k + 2;
        assert(b.take(k2).take(k2 - 2) == b.take(k));
        lemma_decode_prefix_none(b, k2);
    } else {
        assert(b.take(k) == b);
    }
}

/// Hex decoding of a string; `None` on odd length or a non-hex character.
pub fn decode(s: &str) -> (r: Option<Vec<u8>>)
    ensures
        match r {
            Some(v) => hex_decode_spec(s@) == Some(v@),
            None => hex_decode_spec(s@) is None,
        },
{
    let b = s.as_bytes();
    let n = b.len();
    if n % 2 != 0 {
        return None;
    }
    let mut out: Vec<u8> = Vec::new();
    let mut i: usize = 0;
    while i < n
        invariant
            n == b@.len(),
            n % 2 == 0,
            i % 2 == 0,
            i <= n,
            b@ == encode_utf8(s@),
            hex_decode_bytes(b@.take(i as int)) == Some(out@),
        decreases n - i,
    {
        let hi = digit_value(b[i]);
        let lo = digit_value(b[i + 1]);
        let ghost pre = b@.take(i + 2);
        assert(pre.take(pre.len() - 2) == b@.take(i as int));
        assert(pre[pre.len() - 2] == b@[i as int]);
        assert(pre[pre.len() - 1] == b@[i + 1]);
        match (hi, lo) {
            (Some(h), Some(l)) => {
                out.push(h * 16 + l);
            },
            _ => {
                proof {
                    lemma_decode_prefix_none(b@, i + 2);
                }
                return None;
            },
        }
        i = i + 2;
    }
    assert(b@.take(n as int) == b@);
    Some(out)
}

/// Hex-encoded text decodes back to the bytes it encodes.
pub proof fn lemma_hex_roundtrip(bytes: Seq<u8>)
    ensures
        hex_decode_spec(hex_lower(bytes)) == Some(bytes),
{
    lemma_hex_ascii(bytes);
    lemma_hex_bytes_roundtrip(bytes);
}

/// The UTF-8 bytes of a hex string are its ASCII digit codes.
proof fn lemma_hex_ascii(bytes: Seq<u8>)
    ensures
        encode_utf8(hex_lower(bytes)) == hex_lower(bytes).map_values(|c: char| c as u8),
        forall|i: int| 0 <= i < hex_lower(bytes).len() ==> (#[trigger] hex_lower(bytes)[i] as u32) < 128,
    decreases bytes.len(),
{
    if bytes.len() > 0 {
        let init = bytes.drop_last();
        lemma_hex_ascii(init);
        let h = hex_lower(init);
        let b = bytes.last();
        let t = seq![hex_digit(b / 16), hex_digit(b % 16)];
        assert((hex_digit(b / 16) as u32) < 128);
        assert((hex_digit(b % 16) as u32) < 128);
        crate::text::lemma_encode_utf8_concat(h, t);
        crate::text::lemma_encode_ascii(t);
        assert(hex_lower(bytes) == h + t);
        assert(hex_lower(bytes).map_values(|c: char| c as u8) == h.map_values(|c: char| c as u8) + t.map_values(|c: char| c as u8));
    }
}

proof fn lemma_hex_bytes_roundtrip(bytes: Seq<u8>)
    ensures
        hex_decode_bytes(hex_lower(bytes).map_values(|c: char| c as u8)) == Some(bytes),
    decreases bytes.len(),
{
    lemma_hex_lower_len(bytes);
    let enc = hex_lower(bytes).map_values(|c: char| c as u8);
    if bytes.len() > 0 {
        let init = bytes.drop_last();
        lemma_hex_bytes_roundtrip(init);
        lemma_hex_lower_len(init);
        let b = bytes.last();
        assert(enc.take(enc.len() - 2) == hex_lower(init).map_values(|c: char| c as u8));
        assert(enc[enc.len() - 2] == hex_digit(b / 16) as u8);
        assert(enc[enc.len() - 1] == hex_digit(b % 16) as u8);
        assert(hex_value(hex_digit(b / 16) as u8) == Some(b / 16));
        assert(hex_value(hex_digit(b % 16) as u8) == Some(b % 16));
        assert(init.push(b) == bytes);
    } else {
        assert(enc.len() == 0);
    }
}


/// The `Display` text of the error `hex::decode` reports for `s` (an odd
/// number of digits, or the first invalid character and its position).
pub uninterp spec fn hex_error_text(s: Seq<char>) -> Seq<char>;

/// `hex::decode(s)`, keeping the `Display` text of its error.
/// Trusted: for a text that does not decode, the result is `hex_error_text(s)`.
#[verifier::external_body]
fn decode_error_text(s: &str) -> (r: String)
    ensures
        r@ == hex_error_text(s@),
{
    match ::hex::decode(s) {
        Err(e) => format!("{e}"),
        Ok(_) => String::new(),
    }
}

/// The decode error for hex text `s` that does not decode, as
/// `"<ctx>: <hex crate message>"`.
pub fn decode_error(ctx: &str, s: &str) -> (e: Error)
    ensures
        e matches Error::Decode(m) && m@ == ctx@ + ": "@ + hex_error_text(s@),
{
    let mut m = String::from_str(ctx);
    push_str(&mut m, ": ");
    push_str(&mut m, decode_error_text(s).as_str());
    Error::Decode(m)
}

} // verus!
