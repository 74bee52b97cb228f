//! UNIP-01 nametag utilities: normalization, salted hashing, validation, the
//! recoverable AES-256-GCM `encrypted_nametag`, and the single-owner marker
//! of binding events. Relays only ever see salted hashes of nametags.
use vstd::prelude::*;
use vstd::utf8::*;

use aes_gcm::aead::{Aead, KeyInit};
use aes_gcm::{Aes256Gcm, Key, Nonce};

use crate::crypto::digest::{hkdf_sha256, hkdf_sha256_okm, sha256, sha256_digest};
use crate::crypto::encoding::{base64_decode, base64_encode, base64_standard, base64_standard_decoded};
use crate::crypto::nip44::append_bytes;
use crate::error::{error_matches, some_decode_error, Error, Result};
use crate::event::Event;
use crate::hex::{self as hexenc, hex_lower};
use crate::json::{strs_view, tags_view};
use crate::text::{chars_of, push_str, str_eq, string_from_chars, string_from_utf8, to_array32};

verus! {

/// Minimum nametag length (in characters) after normalization.
pub const NAMETAG_MIN_LENGTH: usize = 3;

/// Maximum nametag length (in characters) after normalization.
pub const NAMETAG_MAX_LENGTH: usize = 20;

/// UNIP-01 single-owner marker label (used as `["L", NAMETAG_MARKER_LABEL]`).
pub const NAMETAG_MARKER_LABEL: &'static str = "unicity:nametag";

/// The Unicode `White_Space` property of a character: U+0009..U+000D, U+0020,
/// U+0085, U+00A0, U+1680, U+2000..U+200A, U+2028, U+2029, U+202F, U+205F and U+3000.
pub open spec fn unicode_white_space(c: char) -> bool {
    let u = c as u32;
    (0x09 <= u && u <= 0x0D) || u == 0x20 || u == 0x85 || u == 0xA0 || u == 0x1680
        || (0x2000 <= u && u <= 0x200A) || u == 0x2028 || u == 0x2029 || u == 0x202F || u == 0x205F
        || u == 0x3000
}

/// Full Unicode lower-casing of a string (`str::to_lowercase`).
pub uninterp spec fn unicode_lowercase(s: Seq<char>) -> Seq<char>;

/// AES-256-GCM encryption without associated data: ciphertext followed by the tag.
pub uninterp spec fn aes256gcm_sealed(key: Seq<u8>, nonce: Seq<u8>, pt: Seq<u8>) -> Seq<u8>;

/// AES-256-GCM decryption without associated data; `None` when the tag fails.
pub uninterp spec fn aes256gcm_opened(key: Seq<u8>, nonce: Seq<u8>, ct: Seq<u8>) -> Option<Seq<u8>>;

/// Whether `c` has the Unicode `White_Space` property (as `char::is_whitespace`).
fn is_whitespace(c: char) -> (r: bool)
    ensures
        r == unicode_white_space(c),
{
    let u = c as u32;
    (0x09 <= u && u <= 0x0D) || u == 0x20 || u == 0x85 || u == 0xA0 || u == 0x1680
        || (0x2000 <= u && u <= 0x200A) || u == 0x2028 || u == 0x2029 || u == 0x202F || u == 0x205F
        || u == 0x3000
}

/// `str::to_lowercase`.
/// Trusted: the result is the full Unicode lower-casing of `s`.
#[verifier::external_body]
fn to_lowercase(s: &str) -> (r: String)
    ensures
        r@ == unicode_lowercase(s@),
{
    s.to_lowercase()
}

/// `Aes256Gcm::new(key).encrypt(nonce, pt)`.
/// Trusted: the result is the sealed text (16 bytes longer than `pt`) and it
/// opens again to `pt` under the same key and nonce. The crate fails only for
/// plaintexts over 2^36 bytes, excluded here.
#[verifier::external_body]
fn gcm_seal(key: &[u8; 32], nonce: &[u8; 12], pt: &[u8]) -> (r: Vec<u8>)
    requires
        pt@.len() <= 0x10_0000_0000,
    ensures
        r@ == aes256gcm_sealed(key@, nonce@, pt@),
        r@.len() == pt@.len() + 16,
        aes256gcm_opened(key@, nonce@, r@) == Some(pt@),
{
    let cipher = Aes256Gcm::new(Key::<Aes256Gcm>::from_slice(key));
    match cipher.encrypt(Nonce::from_slice(nonce), pt) {
        Ok(c) => c,
        Err(_) => Vec::new(),
    }
}

/// `Aes256Gcm::new(key).decrypt(nonce, ct)`.
/// Trusted: `Some` exactly when the tag authenticates, with the plaintext.
#[verifier::external_body]
fn gcm_open(key: &[u8; 32], nonce: &[u8], ct: &[u8]) -> (r: Option<Vec<u8>>)
    requires
        nonce@.len() == 12,
    ensures
        r is Some <==> aes256gcm_opened(key@, nonce@, ct@) is Some,
        r is Some ==> aes256gcm_opened(key@, nonce@, ct@) == Some(r->0@),
{
    let cipher = Aes256Gcm::new(Key::<Aes256Gcm>::from_slice(key));
    cipher.decrypt(Nonce::from_slice(nonce), ct).ok()
}

/// Hex SHA-256 of the UTF-8 bytes of a string.
pub open spec fn sha256_hex_spec(s: Seq<char>) -> Seq<char> {
    hex_lower(sha256_digest(encode_utf8(s)))
}

/// Hex SHA-256 of a UTF-8 string.
pub fn sha256_hex(input: &str) -> (r: String)
    ensures
        r@ == sha256_hex_spec(input@),
        r@.len() == 64,
        forall|i: int| 0 <= i < r@.len() ==> crate::hex::is_lower_hex_digit(#[trigger] r@[i]),
{
    let d = sha256(input.as_bytes());
    hexenc::encode(d.as_slice())
}

/// Leading whitespace removed.
pub open spec fn trim_start(s: Seq<char>) -> Seq<char>
    decreases s.len(),
{
    if s.len() > 0 && unicode_white_space(s[0]) {
        trim_start(s.drop_first())
    } else {
        s
    }
}

/// Trailing whitespace removed.
pub open spec fn trim_end(s: Seq<char>) -> Seq<char>
    decreases s.len(),
{
    if s.len() > 0 && unicode_white_space(s.last()) {
        trim_end(s.drop_last())
    } else {
        s
    }
}

/// `str::trim`: leading and trailing whitespace removed.
pub open spec fn trim_spec(s: Seq<char>) -> Seq<char> {
    trim_end(trim_start(s))
}

fn trim(s: &str) -> (r: Vec<char>)
    ensures
        r@ == trim_spec(s@),
{
    let cs = chars_of(s);
    let n = cs.len();
    let mut lo: usize = 0;
    assert(cs@.skip(0) == cs@);
    while lo < n && is_whitespace(cs[lo])
        invariant
            n == cs@.len(),
            lo <= n,
            trim_start(cs@) == trim_start(cs@.skip(lo as int)),
        decreases n - lo,
    {
        assert(cs@.skip(lo as int).drop_first() == cs@.skip(lo + 1));
        lo = lo + 1;
    }
    let ghost mid = cs@.skip(lo as int);
    assert(trim_start(cs@) == mid);
    let mut hi: usize = n;
    assert(cs@.subrange(lo as int, n as int) == mid);
    while hi > lo && is_whitespace(cs[hi - 1])
        invariant
            n == cs@.len(),
            lo <= hi <= n,
            trim_end(mid) == trim_end(cs@.subrange(lo as int, hi as int)),
        decreases hi,
    {
        assert(cs@.subrange(lo as int, hi as int).drop_last() == cs@.subrange(lo as int, hi - 1));
        hi = hi - 1;
    }
    let mut out: Vec<char> = Vec::new();
    for i in lo..hi
        invariant
            n == cs@.len(),
            lo <= hi <= n,
            out@ == cs@.subrange(lo as int, i as int),
    {
        out.push(cs[i]);
        assert(cs@.subrange(lo as int, i + 1) == cs@.subrange(lo as int, i as int).push(cs@[i as int]));
    }
    out
}

/// `@unicity`
pub open spec fn unicity_suffix() -> Seq<char> {
    seq!['@', 'u', 'n', 'i', 'c', 'i', 't', 'y']
}

/// Normalization: trim, lower-case, then drop a trailing `@unicity`.
pub open spec fn normalize_spec(nametag: Seq<char>) -> Seq<char> {
    let lower = unicode_lowercase(trim_spec(nametag));
    if lower.len() >= 8 && lower.skip(lower.len() - 8) == unicity_suffix() {
        lower.take(lower.len() - 8)
    } else {
        lower
    }
}

/// Normalize a nametag: trim, lowercase, strip a trailing `@unicity`.
pub fn normalize_nametag(nametag: &str) -> (r: String)
    ensures
        r@ == normalize_spec(nametag@),
{
    let trimmed = string_from_chars(trim(nametag).as_slice());
    let lower = to_lowercase(trimmed.as_str());
    let cs = chars_of(lower.as_str());
    let n = cs.len();
    if n >= 8 {
        let k = n - 8;
        let has = cs[k] == '@' && cs[k + 1] == 'u' && cs[k + 2] == 'n' && cs[k + 3] == 'i' && cs[k + 4] == 'c'
            && cs[k + 5] == 'i' && cs[k + 6] == 't' && cs[k + 7] == 'y';
        proof {
            let tail = cs@.skip(k as int);
            assert(has <==> tail == unicity_suffix()) by {
                if tail == unicity_suffix() {
                    assert(tail[0] == cs@[k as int] && tail[1] == cs@[k + 1] && tail[2] == cs@[k + 2] && tail[3] == cs@[k + 3]);
                    assert(tail[4] == cs@[k + 4] && tail[5] == cs@[k + 5] && tail[6] == cs@[k + 6] && tail[7] == cs@[k + 7]);
                }
                if has {
                    assert(tail =~= unicity_suffix());
                }
            }
        }
        if has {
            let r = string_from_chars(&cs.as_slice()[0..k]);
            assert(r@ == cs@.take(k as int));
            return r;
        }
    }
    lower
}

/// `unicity:nametag:`
pub open spec fn nametag_salt() -> Seq<char> {
    seq!['u', 'n', 'i', 'c', 'i', 't', 'y', ':', 'n', 'a', 'm', 'e', 't', 'a', 'g', ':']
}

/// `unicity:address:`
pub open spec fn address_salt() -> Seq<char> {
    seq!['u', 'n', 'i', 'c', 'i', 't', 'y', ':', 'a', 'd', 'd', 'r', 'e', 's', 's', ':']
}

/// The relay-indexed hash of a nametag.
pub open spec fn hash_nametag_spec(nametag: Seq<char>) -> Seq<char> {
    sha256_hex_spec(nametag_salt() + normalize_spec(nametag))
}

/// The relay-indexed hash of an address.
pub open spec fn hash_address_spec(address: Seq<char>) -> Seq<char> {
    sha256_hex_spec(address_salt() + address)
}

/// Salted, normalized nametag hash (hex): the relay-indexed `d`/`t` tag value.
/// Nametags that normalize alike hash alike.
pub fn hash_nametag(nametag: &str) -> (r: String)
    ensures
        r@ == hash_nametag_spec(nametag@),
        r@.len() == 64,
        forall|i: int| 0 <= i < r@.len() ==> crate::hex::is_lower_hex_digit(#[trigger] r@[i]),
{
    let mut s = String::from_str("unicity:nametag:");
    proof {
        reveal_strlit("unicity:nametag:");
        assert("unicity:nametag:"@ =~= nametag_salt());
    }
    let n = normalize_nametag(nametag);
    push_str(&mut s, n.as_str());
    sha256_hex(s.as_str())
}

/// Salted address hash (hex) for reverse lookup (address to binding).
pub fn hash_address_for_tag(address: &str) -> (r: String)
    ensures
        r@ == hash_address_spec(address@),
{
    let mut s = String::from_str("unicity:address:");
    proof {
        reveal_strlit("unicity:address:");
        assert("unicity:address:"@ =~= address_salt());
    }
    push_str(&mut s, address);
    sha256_hex(s.as_str())
}

/// A character allowed in a nametag: `[a-z0-9_-]`.
pub open spec fn nametag_char(c: char) -> bool {
    ('a' <= c && c <= 'z') || ('0' <= c && c <= '9') || c == '_' || c == '-'
}

/// A valid nametag: after dropping one leading `@` and normalizing, 3 to 20
/// characters from `[a-z0-9_-]`.
pub open spec fn is_valid_nametag_spec(nametag: Seq<char>) -> bool {
    valid_normalized_nametag(normalize_spec(strip_at(nametag)))
}

/// One leading `@` removed, if there is one.
pub open spec fn strip_at(nametag: Seq<char>) -> Seq<char> {
    if nametag.len() > 0 && nametag[0] == '@' { nametag.drop_first() } else { nametag }
}

/// 3 to 20 characters, each from `[a-z0-9_-]`.
pub open spec fn valid_normalized_nametag(n: Seq<char>) -> bool {
    &&& 3 <= n.len() <= 20
    &&& forall|i: int| 0 <= i < n.len() ==> nametag_char(#[trigger] n[i])
}

/// Validate a nametag: strip a leading `@`, normalize, then require `[a-z0-9_-]{3,20}`.
pub fn is_valid_nametag(nametag: &str) -> (r: bool)
    ensures
        r == is_valid_nametag_spec(nametag@),
{
    let ghost stripped_spec = strip_at(nametag@);
    let cs = chars_of(nametag);
    let stripped = if cs.len() > 0 && cs[0] == '@' {
        let s = string_from_chars(&cs.as_slice()[1..cs.len()]);
        assert(s@ == nametag@.drop_first());
        s
    } else {
        string_from_chars(cs.as_slice())
    };
    assert(stripped@ == stripped_spec);
    let n = normalize_nametag(stripped.as_str());
    let ncs = chars_of(n.as_str());
    let len = ncs.len();
    if len < NAMETAG_MIN_LENGTH || len > NAMETAG_MAX_LENGTH {
        return false;
    }
    for i in 0..len
        invariant
            len == ncs@.len(),
            3 <= len <= 20,
            ncs@ == normalize_spec(stripped_spec),
            stripped_spec == strip_at(nametag@),
            forall|k: int| 0 <= k < i ==> nametag_char(#[trigger] ncs@[k]),
    {
        let c = ncs[i];
        if !(('a' <= c && c <= 'z') || ('0' <= c && c <= '9') || c == '_' || c == '-') {
            assert(!nametag_char(ncs@[i as int]));
            return false;
        }
    }
    true
}

/// The UNIP-01 marker label as characters.
pub open spec fn marker_label() -> Seq<char> {
    seq!['u', 'n', 'i', 'c', 'i', 't', 'y', ':', 'n', 'a', 'm', 'e', 't', 'a', 'g']
}

/// Some tag is `["L", "unicity:nametag", ...]`.
pub open spec fn has_marker_spec(tags: Seq<Seq<Seq<char>>>) -> bool {
    exists|i: int| 0 <= i < tags.len() && #[trigger] tags[i].len() >= 2 && tags[i][0] == seq!['L']
        && tags[i][1] == marker_label()
}

/// Does an event carry the UNIP-01 ownership marker `["L", "unicity:nametag"]`?
pub fn has_ownership_marker(event: &Event) -> (r: bool)
    ensures
        r == has_marker_spec(tags_view(event.tags@)),
{
    proof {
        reveal_strlit("L");
        reveal_strlit("unicity:nametag");
        assert("L"@ =~= seq!['L']);
        assert("unicity:nametag"@ =~= marker_label());
    }
    let ghost tags = tags_view(event.tags@);
    let n = event.tags.len();
    for i in 0..n
        invariant
            n == event.tags@.len(),
            tags == tags_view(event.tags@),
            "L"@ == seq!['L'],
            "unicity:nametag"@ == marker_label(),
            forall|k: int| 0 <= k < i ==> !(#[trigger] tags[k].len() >= 2 && tags[k][0] == seq!['L'] && tags[k][1] == marker_label()),
    {
        let t = &event.tags[i];
        assert(tags[i as int] == strs_view(t@));
        if t.len() >= 2 && str_eq(t[0].as_str(), "L") && str_eq(t[1].as_str(), NAMETAG_MARKER_LABEL) {
            return true;
        }
    }
    false
}

/// `sphere-nametag-salt`
pub open spec fn key_salt_text() -> Seq<u8> {
    seq![115u8, 112, 104, 101, 114, 101, 45, 110, 97, 109, 101, 116, 97, 103, 45, 115, 97, 108, 116]
}

/// `nametag-encryption`
pub open spec fn key_info_text() -> Seq<u8> {
    seq![110u8, 97, 109, 101, 116, 97, 103, 45, 101, 110, 99, 114, 121, 112, 116, 105, 111, 110]
}

/// The `encrypted_nametag` key:
/// `HKDF-SHA256(ikm = privkey, salt = SHA-256("sphere-nametag-salt"), info = "nametag-encryption", 32)`.
pub open spec fn nametag_key_spec(private_key: Seq<u8>) -> Seq<u8> {
    hkdf_sha256_okm(sha256_digest(key_salt_text()), private_key, key_info_text(), 32)
}

/// Derive the AES-256 key for `encrypted_nametag`.
pub fn derive_nametag_encryption_key(private_key: &[u8; 32]) -> (r: [u8; 32])
    ensures
        r@ == nametag_key_spec(private_key@),
{
    let salt_text: [u8; 19] = [115u8, 112, 104, 101, 114, 101, 45, 110, 97, 109, 101, 116, 97, 103, 45, 115, 97, 108, 116];
    let info: [u8; 18] = [110u8, 97, 109, 101, 116, 97, 103, 45, 101, 110, 99, 114, 121, 112, 116, 105, 111, 110];
    assert(salt_text@ == key_salt_text());
    assert(info@ == key_info_text());
    let salt = sha256(salt_text.as_slice());
    let okm = match hkdf_sha256(salt.as_slice(), private_key.as_slice(), info.as_slice(), 32) {
        Some(v) => v,
        None => Vec::new(),
    };
    to_array32(okm.as_slice())
}

/// Decryption of decoded `encrypted_nametag` bytes.
pub open spec fn decrypt_nametag_bytes_spec(combined: Seq<u8>, private_key: Seq<u8>) -> core::result::Result<Seq<char>, Error> {
    if combined.len() < 28 {
        Err(Error::Malformed("encrypted_nametag too short"))
    } else {
        match aes256gcm_opened(nametag_key_spec(private_key), combined.take(12), combined.skip(12)) {
            None => Err(Error::Decrypt("aes-gcm: bad tag")),
            Some(pt) => if valid_utf8(pt) {
                Ok(decode_utf8(pt))
            } else {
                Err(Error::Utf8)
            },
        }
    }
}

/// Decryption of an `encrypted_nametag` text.
pub open spec fn decrypt_nametag_spec(encrypted: Seq<char>, private_key: Seq<u8>) -> core::result::Result<Seq<char>, Error> {
    match base64_standard_decoded(encrypted) {
        None => Err(some_decode_error()),
        Some(b) => decrypt_nametag_bytes_spec(b, private_key),
    }
}

/// Encrypt a nametag (AES-256-GCM) with a caller-supplied 12-byte IV.
/// Output = `base64(iv || ciphertext || tag)`; it decrypts back to the nametag
/// under the same private key.
pub fn encrypt_nametag_with_iv(nametag: &str, private_key: &[u8; 32], iv: &[u8; 12]) -> (r: Result<String>)
    ensures
        r is Ok <==> encode_utf8(nametag@).len() <= 0x10_0000_0000,
        r is Err ==> r->Err_0 == Error::Decrypt("aes-gcm encrypt"),
        r is Ok ==> r->Ok_0@ == base64_standard(iv@ + aes256gcm_sealed(nametag_key_spec(private_key@), iv@, encode_utf8(nametag@))),
        r is Ok ==> decrypt_nametag_spec(r->Ok_0@, private_key@) == Ok::<Seq<char>, Error>(nametag@),
{
    let key = derive_nametag_encryption_key(private_key);
    let pt = nametag.as_bytes();
    if pt.len() as u64 > 0x10_0000_0000u64 {
        return Err(Error::Decrypt("aes-gcm encrypt"));
    }
    let ct = gcm_seal(&key, iv, pt);
    let mut combined: Vec<u8> = Vec::new();
    append_bytes(&mut combined, iv.as_slice());
    append_bytes(&mut combined, ct.as_slice());
    let s = base64_encode(combined.as_slice());
    proof {
        assert(combined@.take(12) == iv@);
        assert(combined@.skip(12) == ct@);
        encode_utf8_valid_utf8(nametag@);
        encode_utf8_decode_utf8(nametag@);
    }
    Ok(s)
}

/// Decrypt an `encrypted_nametag` produced by `encrypt_nametag_with_iv`.
pub fn decrypt_nametag(encrypted_b64: &str, private_key: &[u8; 32]) -> (r: Result<String>)
    ensures
        match r {
            Ok(s) => decrypt_nametag_spec(encrypted_b64@, private_key@) == Ok::<Seq<char>, Error>(s@),
            Err(e) => decrypt_nametag_spec(encrypted_b64@, private_key@) matches Err(e2) && error_matches(e, e2),
        },
{
    let combined = match base64_decode(encrypted_b64) {
        Ok(v) => v,
        Err(msg) => {
            let mut m = String::from_str("base64: ");
            push_str(&mut m, msg.as_str());
            return Err(Error::Decode(m));
        },
    };
    if combined.len() < 28 {
        return Err(Error::Malformed("encrypted_nametag too short"));
    }
    let key = derive_nametag_encryption_key(private_key);
    let iv = &combined.as_slice()[0..12];
    let ct = &combined.as_slice()[12..combined.len()];
    let pt = match gcm_open(&key, iv, ct) {
        Some(p) => p,
        None => return Err(Error::Decrypt("aes-gcm: bad tag")),
    };
    match string_from_utf8(pt) {
        Some(s) => Ok(s),
        None => Err(Error::Utf8),
    }
}


/// Nametags that normalize alike hash alike: `"Alice@unicity"`, `" alice "`
/// and `"ALICE"` all index the same binding.
pub proof fn lemma_hash_follows_normalization(a: Seq<char>, b: Seq<char>)
    requires
        normalize_spec(a) == normalize_spec(b),
    ensures
        hash_nametag_spec(a) == hash_nametag_spec(b),
{
}

/// The UNIP-01 marker is exactly a tag `["L", "unicity:nametag", ...]`: such a
/// tag makes the tags marked, and tags whose `L` labels are all something else
/// (or that have no `L` tag) are not marked.
pub proof fn lemma_marker_is_exact_label(tags: Seq<Seq<Seq<char>>>, k: int)
    ensures
        0 <= k < tags.len() && tags[k].len() >= 2 && tags[k][0] == "L"@ && tags[k][1] == "unicity:nametag"@
            ==> has_marker_spec(tags),
        (forall|i: int| 0 <= i < tags.len() && #[trigger] tags[i].len() >= 2 && tags[i][0] == "L"@
            ==> tags[i][1] != "unicity:nametag"@) ==> !has_marker_spec(tags),
{
    reveal_strlit("L");
    reveal_strlit("unicity:nametag");
    assert("L"@ =~= seq!['L']);
    assert("unicity:nametag"@ =~= marker_label());
}

/// Validity depends only on the normalized form (after dropping one leading
/// `@`): it holds exactly when that form has 3 to 20 characters, each a
/// lower-case ASCII letter, a digit, `_` or `-`.
pub proof fn lemma_valid_nametag_by_normal_form(nametag: Seq<char>)
    ensures
        is_valid_nametag_spec(nametag) <==> {
            let n = normalize_spec(strip_at(nametag));
            &&& 3 <= n.len() && n.len() <= 20
            &&& forall|i: int| 0 <= i < n.len() ==> ('a' <= #[trigger] n[i] && n[i] <= 'z') || ('0' <= n[i] && n[i] <= '9')
                || n[i] == '_' || n[i] == '-'
        },
{
}

/// Two nametags with the same normalized form (after dropping one leading `@`)
/// are equally valid, whatever their raw lengths.
pub proof fn lemma_valid_nametag_follows_normalization(a: Seq<char>, b: Seq<char>)
    requires
        normalize_spec(strip_at(a)) == normalize_spec(strip_at(b)),
    ensures
        is_valid_nametag_spec(a) == is_valid_nametag_spec(b),
{
    lemma_valid_nametag_by_normal_form(a);
    lemma_valid_nametag_by_normal_form(b);
}

} // verus!
