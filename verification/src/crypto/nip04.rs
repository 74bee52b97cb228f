//! NIP-04 in the Unicity variant: the AES-256 key is `SHA-256(ECDH_x)`
//! (canonical NIP-04 uses the raw x).
//!
//! * AES-256-CBC, PKCS#7 padding, caller-supplied 16-byte IV
//! * wire format `base64(ciphertext) ?iv= base64(iv)`
//! * messages over 1024 bytes are GZIP-compressed when that makes them smaller,
//!   and the whole string is then prefixed with `gz:`
use vstd::prelude::*;
use vstd::utf8::*;

use aes::Aes256;
use cbc::cipher::block_padding::Pkcs7;
use cbc::cipher::{BlockDecryptMut, BlockEncryptMut, KeyIvInit};
use flate2::read::GzDecoder;
use flate2::write::GzEncoder;
use flate2::Compression;
use std::io::{Read, Write};

use crate::crypto::digest::{sha256, sha256_digest};
use crate::crypto::encoding::{base64_decode, base64_encode, base64_standard, base64_standard_decoded, is_base64_char};
use crate::crypto::nip44::append_bytes;
use crate::crypto::secp::{ecdh_shared_x, ecdh_x, secp256k1_x_on_curve, secp256k1_xonly, valid_secret};
use crate::error::{error_matches, some_decode_error, some_gzip_error, Error, Result};
use crate::text::{chars_of, push_char, push_str, string_from_chars, string_from_utf8};

verus! {

/// Messages longer than this many bytes are candidates for compression.
pub const COMPRESSION_THRESHOLD: usize = 1024;

/// AES-256-CBC encryption with PKCS#7 padding.
pub uninterp spec fn aes256_cbc_encrypted(key: Seq<u8>, iv: Seq<u8>, pt: Seq<u8>) -> Seq<u8>;

/// AES-256-CBC decryption with PKCS#7 unpadding; `None` when the padding is invalid.
pub uninterp spec fn aes256_cbc_decrypted(key: Seq<u8>, iv: Seq<u8>, ct: Seq<u8>) -> Option<Seq<u8>>;

/// GZIP compression (flate2, default level); `None` if the encoder fails.
pub uninterp spec fn gzip_compressed(data: Seq<u8>) -> Option<Seq<u8>>;

/// GZIP decompression; `None` when the input is not valid GZIP data.
pub uninterp spec fn gzip_decompressed(data: Seq<u8>) -> Option<Seq<u8>>;

/// `cbc::Encryptor::<Aes256>::new(key, iv).encrypt_padded_vec_mut::<Pkcs7>(pt)`.
/// Trusted: the ciphertext is `aes256_cbc_encrypted`, PKCS#7-padded to the next
/// whole 16-byte block, and decrypting it with the same key and IV gives `pt` back.
#[verifier::external_body]
fn aes_cbc_encrypt(key: &[u8; 32], iv: &[u8; 16], pt: &[u8]) -> (r: Vec<u8>)
    ensures
        r@ == aes256_cbc_encrypted(key@, iv@, pt@),
        r@.len() == 16 * (pt@.len() / 16 + 1),
        aes256_cbc_decrypted(key@, iv@, r@) == Some(pt@),
{
    cbc::Encryptor::<Aes256>::new(key.into(), iv.into()).encrypt_padded_vec_mut::<Pkcs7>(pt)
}

/// `cbc::Decryptor::<Aes256>::new(key, iv).decrypt_padded_vec_mut::<Pkcs7>(ct)`.
/// Trusted: `Some` exactly when the PKCS#7 padding checks, with the plaintext.
#[verifier::external_body]
fn aes_cbc_decrypt(key: &[u8; 32], iv: &[u8; 16], ct: &[u8]) -> (r: Option<Vec<u8>>)
    ensures
        r is Some <==> aes256_cbc_decrypted(key@, iv@, ct@) is Some,
        r is Some ==> aes256_cbc_decrypted(key@, iv@, ct@) == Some(r->0@),
{
    cbc::Decryptor::<Aes256>::new(key.into(), iv.into()).decrypt_padded_vec_mut::<Pkcs7>(ct).ok()
}

/// `flate2::write::GzEncoder` (default compression) over a `Vec`: `write_all`, then `finish`.
/// Trusted: `Ok` exactly when the name is `Some`, holding the compressed bytes,
/// which decompress to `data` again.
#[verifier::external_body]
fn gzip(data: &[u8]) -> (r: core::result::Result<Vec<u8>, String>)
    ensures
        r is Ok <==> gzip_compressed(data@) is Some,
        r is Ok ==> gzip_compressed(data@) == Some(r->Ok_0@) && gzip_decompressed(r->Ok_0@) == Some(data@),
{
    let mut e = GzEncoder::new(Vec::new(), Compression::default());
    match e.write_all(data) {
        Ok(()) => {},
        Err(err) => return Err(format!("{err}")),
    }
    match e.finish() {
        Ok(v) => Ok(v),
        Err(err) => Err(format!("{err}")),
    }
}

/// `flate2::read::GzDecoder::new(data).read_to_end(..)`.
/// Trusted: `Ok` exactly when the name is `Some`, with the decompressed bytes.
#[verifier::external_body]
fn gunzip(data: &[u8]) -> (r: core::result::Result<Vec<u8>, String>)
    ensures
        r is Ok <==> gzip_decompressed(data@) is Some,
        r is Ok ==> gzip_decompressed(data@) == Some(r->Ok_0@),
{
    let mut out = Vec::new();
    match GzDecoder::new(data).read_to_end(&mut out) {
        Ok(_) => Ok(out),
        Err(err) => Err(format!("{err}")),
    }
}

/// The NIP-04 shared secret of `secret` with the peer's x-only key.
pub open spec fn shared_secret_spec(secret: Seq<u8>, peer: Seq<u8>) -> core::result::Result<Seq<u8>, Error> {
    if !valid_secret(secret) {
        Err(Error::Secp("invalid secret key"))
    } else if !secp256k1_x_on_curve(peer) {
        Err(Error::Secp("invalid peer public key"))
    } else {
        Ok(sha256_digest(ecdh_shared_x(secret, peer)->0))
    }
}

/// NIP-04 shared secret = `SHA-256(ECDH_x)` (the AES-256 key). Both parties
/// derive the same secret.
pub fn derive_shared_secret(my_secret: &[u8; 32], peer_xonly: &[u8; 32]) -> (r: Result<[u8; 32]>)
    ensures
        match r {
            Ok(k) => shared_secret_spec(my_secret@, peer_xonly@) == Ok::<Seq<u8>, Error>(k@),
            Err(e) => shared_secret_spec(my_secret@, peer_xonly@) == Err::<Seq<u8>, Error>(e),
        },
        r is Ok ==> forall|other: Seq<u8>| #[trigger] secp256k1_xonly(other) == Some(peer_xonly@)
            ==> shared_secret_spec(other, secp256k1_xonly(my_secret@)->0) == Ok::<Seq<u8>, Error>(r->Ok_0@),
{
    let x = match ecdh_x(my_secret, peer_xonly) {
        Ok(x) => x,
        Err(e) => return Err(e),
    };
    let k = sha256(x.as_slice());
    assert forall|other: Seq<u8>| #[trigger] secp256k1_xonly(other) == Some(peer_xonly@) implies
        shared_secret_spec(other, secp256k1_xonly(my_secret@)->0) == Ok::<Seq<u8>, Error>(k@) by {
        assert(ecdh_shared_x(other, secp256k1_xonly(my_secret@)->0) == Some(x@));
    }
    Ok(k)
}

/// `gz:`
pub open spec fn gz_prefix() -> Seq<char> {
    seq!['g', 'z', ':']
}

/// `?iv=`
pub open spec fn iv_separator() -> Seq<char> {
    seq!['?', 'i', 'v', '=']
}

/// The wire text for a ciphertext and IV, with the `gz:` prefix when compressed.
pub open spec fn format_spec(ct: Seq<u8>, iv: Seq<u8>, compressed: bool) -> Seq<char> {
    (if compressed { gz_prefix() } else { seq![] }) + base64_standard(ct) + iv_separator()
        + base64_standard(iv)
}

fn format(ciphertext: &[u8], iv: &[u8; 16], compressed: bool) -> (s: String)
    ensures
        s@ == format_spec(ciphertext@, iv@, compressed),
        base64_standard_decoded(base64_standard(ciphertext@)) == Some(ciphertext@),
        base64_standard_decoded(base64_standard(iv@)) == Some(iv@),
        forall|i: int| 0 <= i < base64_standard(ciphertext@).len() ==> is_base64_char(
            #[trigger] base64_standard(ciphertext@)[i],
        ),
{
    let mut s = String::new();
    if compressed {
        push_char(&mut s, 'g');
        push_char(&mut s, 'z');
        push_char(&mut s, ':');
    }
    let ghost s0 = s@;
    let ct_text = base64_encode(ciphertext);
    push_str(&mut s, ct_text.as_str());
    let ghost s1 = s@;
    push_char(&mut s, '?');
    push_char(&mut s, 'i');
    push_char(&mut s, 'v');
    push_char(&mut s, '=');
    let iv_text = base64_encode(iv.as_slice());
    push_str(&mut s, iv_text.as_str());
    assert(s@ == s0 + ct_text@ + iv_separator() + iv_text@);
    s
}

/// The first index at which `pat` occurs in `s`.
pub open spec fn find_spec(s: Seq<char>, pat: Seq<char>) -> Option<int>
    decreases s.len(),
{
    if s.len() < pat.len() {
        None
    } else if s.take(pat.len() as int) == pat {
        Some(0)
    } else if s.len() == 0 {
        None
    } else {
        match find_spec(s.drop_first(), pat) {
            Some(k) => Some(k + 1),
            None => None,
        }
    }
}

/// Split of the payload: (ciphertext text, IV text, compressed).
pub open spec fn split_spec(payload: Seq<char>) -> Option<(Seq<char>, Seq<char>, bool)> {
    let compressed = payload.len() >= 3 && payload.take(3) == gz_prefix();
    let content = if compressed { payload.skip(3) } else { payload };
    match find_spec(content, iv_separator()) {
        None => None,
        Some(k) => Some((content.take(k), content.skip(k + 4), compressed)),
    }
}

/// Parsing of a payload into (ciphertext, IV, compressed).
pub open spec fn parse_spec(payload: Seq<char>) -> core::result::Result<(Seq<u8>, Seq<u8>, bool), Error> {
    match split_spec(payload) {
        None => Err(Error::Malformed("nip04 missing ?iv=")),
        Some((ct_text, iv_text, compressed)) => match (base64_standard_decoded(ct_text), base64_standard_decoded(iv_text)) {
            (None, _) => Err(some_decode_error()),
            (Some(_), None) => Err(some_decode_error()),
            (Some(ct), Some(iv)) => if iv.len() != 16 {
                Err(Error::InvalidLength("iv != 16"))
            } else {
                Ok((ct, iv, compressed))
            },
        },
    }
}

/// Decryption of parsed parts with the shared secret.
pub open spec fn open_spec(secret: Seq<u8>, ct: Seq<u8>, iv: Seq<u8>, compressed: bool) -> core::result::Result<Seq<char>, Error> {
    match aes256_cbc_decrypted(secret, iv, ct) {
        None => Err(Error::Decrypt("cbc padding")),
        Some(pt) => {
            let plain = if compressed { gzip_decompressed(pt) } else { Some(pt) };
            match plain {
                None => Err(some_gzip_error()),
                Some(bytes) => if valid_utf8(bytes) {
                    Ok(decode_utf8(bytes))
                } else {
                    Err(Error::Utf8)
                },
            }
        },
    }
}

/// Decryption of a payload with the shared secret.
pub open spec fn decrypt_with_secret_spec(secret: Seq<u8>, payload: Seq<char>) -> core::result::Result<Seq<char>, Error> {
    match parse_spec(payload) {
        Err(e) => Err(e),
        Ok((ct, iv, compressed)) => open_spec(secret, ct, iv, compressed),
    }
}

fn find_iv_separator(cs: &[char]) -> (r: Option<usize>)
    ensures
        match r {
            Some(k) => find_spec(cs@, iv_separator()) == Some(k as int) && k + 4 <= cs@.len(),
            None => find_spec(cs@, iv_separator()) is None,
        },
{
    let n = cs.len();
    let mut i: usize = 0;
    assert(cs@.skip(0) == cs@);
    while n >= 4 && i <= n - 4
        invariant
            n == cs@.len(),
            i <= n,
            find_spec(cs@, iv_separator()) == match find_spec(cs@.skip(i as int), iv_separator()) {
                Some(k) => Some(k + i),
                None => None::<int>,
            },
        decreases n - i,
    {
        let ghost rest = cs@.skip(i as int);
        assert(rest.drop_first() == cs@.skip(i + 1));
        if cs[i] == '?' && cs[i + 1] == 'i' && cs[i + 2] == 'v' && cs[i + 3] == '=' {
            assert(rest.take(4) == iv_separator());
            return Some(i);
        }
        assert(rest.take(4) != iv_separator()) by {
            if rest.take(4) == iv_separator() {
                assert(rest.take(4)[0] == cs@[i as int]);
                assert(rest.take(4)[1] == cs@[i + 1]);
                assert(rest.take(4)[2] == cs@[i + 2]);
                assert(rest.take(4)[3] == cs@[i + 3]);
            }
        }
        i = i + 1;
    }
    None
}

fn parse_payload(payload: &str) -> (r: Result<(Vec<u8>, [u8; 16], bool)>)
    ensures
        match r {
            Ok((ct, iv, c)) => parse_spec(payload@) == Ok::<(Seq<u8>, Seq<u8>, bool), Error>((ct@, iv@, c)),
            Err(e) => parse_spec(payload@) matches Err(e2) && error_matches(e, e2),
        },
{
    let cs = chars_of(payload);
    let compressed = cs.len() >= 3 && cs[0] == 'g' && cs[1] == 'z' && cs[2] == ':';
    proof {
        if cs@.len() >= 3 {
            assert(cs@.take(3) =~= seq![cs@[0], cs@[1], cs@[2]]);
        }
    }
    let mut content: Vec<char> = Vec::new();
    let start: usize = if compressed { 3 } else { 0 };
    let n = cs.len();
    for i in start..n
        invariant
            n == cs@.len(),
            start <= n,
            content@ == cs@.subrange(start as int, i as int),
    {
        content.push(cs[i]);
        assert(cs@.subrange(start as int, i + 1) == cs@.subrange(start as int, i as int).push(cs@[i as int]));
    }
    assert(content@ == (if compressed { payload@.skip(3) } else { payload@ }));
    let k = match find_iv_separator(content.as_slice()) {
        Some(k) => k,
        None => return Err(Error::Malformed("nip04 missing ?iv=")),
    };
    let ct_text = string_from_chars(&content.as_slice()[0..k]);
    let iv_text = string_from_chars(&content.as_slice()[k + 4..content.len()]);
    assert(ct_text@ == content@.take(k as int));
    assert(iv_text@ == content@.skip(k + 4));
    let ct = match base64_decode(ct_text.as_str()) {
        Ok(v) => v,
        Err(msg) => {
            let mut m = String::from_str("base64 ct: ");
            push_str(&mut m, msg.as_str());
            return Err(Error::Decode(m));
        },
    };
    let iv_vec = match base64_decode(iv_text.as_str()) {
        Ok(v) => v,
        Err(msg) => {
            let mut m = String::from_str("base64 iv: ");
            push_str(&mut m, msg.as_str());
            return Err(Error::Decode(m));
        },
    };
    if iv_vec.len() != 16 {
        return Err(Error::InvalidLength("iv != 16"));
    }
    let mut iv = [0u8; 16];
    for i in 0..16usize
        invariant
            iv_vec@.len() == 16,
            iv@.len() == 16,
            forall|j: int| 0 <= j < i ==> iv@[j] == iv_vec@[j],
    {
        iv[i] = iv_vec[i];
    }
    assert(iv@ == iv_vec@);
    Ok((ct, iv, compressed))
}

fn open(secret: &[u8; 32], ct: &[u8], iv: &[u8; 16], compressed: bool) -> (r: Result<String>)
    ensures
        match r {
            Ok(s) => open_spec(secret@, ct@, iv@, compressed) == Ok::<Seq<char>, Error>(s@),
            Err(e) => open_spec(secret@, ct@, iv@, compressed) matches Err(e2) && error_matches(e, e2),
        },
{
    let pt = match aes_cbc_decrypt(secret, iv, ct) {
        Some(p) => p,
        None => return Err(Error::Decrypt("cbc padding")),
    };
    let plain = if compressed {
        match gunzip(pt.as_slice()) {
            Ok(v) => v,
            Err(msg) => return Err(Error::Gzip(msg)),
        }
    } else {
        pt
    };
    match string_from_utf8(plain) {
        Some(s) => Ok(s),
        None => Err(Error::Utf8),
    }
}

/// Decrypt a NIP-04 payload with an already derived shared secret.
pub fn decrypt_with_secret(secret: &[u8; 32], payload: &str) -> (r: Result<String>)
    ensures
        match r {
            Ok(s) => decrypt_with_secret_spec(secret@, payload@) == Ok::<Seq<char>, Error>(s@),
            Err(e) => decrypt_with_secret_spec(secret@, payload@) matches Err(e2) && error_matches(e, e2),
        },
{
    let (ct, iv, compressed) = match parse_payload(payload) {
        Ok(p) => p,
        Err(e) => return Err(e),
    };
    open(secret, ct.as_slice(), &iv, compressed)
}

/// Decrypt a NIP-04 payload string (handles the `gz:` prefix and `?iv=` framing).
/// The payload is parsed before the shared secret is derived.
pub fn decrypt(my_secret: &[u8; 32], peer_xonly: &[u8; 32], payload: &str) -> (r: Result<String>)
    ensures
        match r {
            Ok(s) => parse_spec(payload@) matches Ok((ct, iv, c)) && shared_secret_spec(my_secret@, peer_xonly@) matches Ok(k)
                && open_spec(k, ct, iv, c) == Ok::<Seq<char>, Error>(s@),
            Err(e) => match parse_spec(payload@) {
                Err(e2) => error_matches(e, e2),
                Ok((ct, iv, c)) => match shared_secret_spec(my_secret@, peer_xonly@) {
                    Err(e2) => e == e2,
                    Ok(k) => open_spec(k, ct, iv, c) matches Err(e2) && error_matches(e, e2),
                },
            },
        },
{
    let (ct, iv, compressed) = match parse_payload(payload) {
        Ok(p) => p,
        Err(e) => return Err(e),
    };
    let secret = match derive_shared_secret(my_secret, peer_xonly) {
        Ok(s) => s,
        Err(e) => return Err(e),
    };
    open(&secret, ct.as_slice(), &iv, compressed)
}


proof fn lemma_find_after(a: Seq<char>, b: Seq<char>)
    requires
        forall|i: int| 0 <= i < a.len() ==> a[i] != '?',
    ensures
        find_spec(a + iv_separator() + b, iv_separator()) == Some(a.len() as int),
    decreases a.len(),
{
    let s = a + iv_separator() + b;
    if a.len() == 0 {
        assert(s.take(4) == iv_separator());
    } else {
        assert(s.take(4) != iv_separator()) by {
            assert(s.take(4)[0] == a[0]);
        }
        assert(s.drop_first() == a.drop_first() + iv_separator() + b);
        lemma_find_after(a.drop_first(), b);
    }
}

/// The compression decision: GZIP when the message exceeds the threshold and
/// the compressed form is shorter; `None` if the encoder fails.
pub open spec fn auto_choice(pt: Seq<u8>) -> Option<(Seq<u8>, bool)> {
    if pt.len() > 1024 {
        match gzip_compressed(pt) {
            None => None,
            Some(c) => if c.len() < pt.len() {
                Some((c, true))
            } else {
                Some((pt, false))
            },
        }
    } else {
        Some((pt, false))
    }
}

proof fn lemma_parse_format(ct: Seq<u8>, iv: Seq<u8>, compressed: bool)
    requires
        iv.len() == 16,
        base64_standard_decoded(base64_standard(ct)) == Some(ct),
        base64_standard_decoded(base64_standard(iv)) == Some(iv),
        forall|i: int| 0 <= i < base64_standard(ct).len() ==> is_base64_char(#[trigger] base64_standard(ct)[i]),
    ensures
        parse_spec(format_spec(ct, iv, compressed)) == Ok::<(Seq<u8>, Seq<u8>, bool), Error>((ct, iv, compressed)),
{
    let a = base64_standard(ct);
    let b = base64_standard(iv);
    let content = a + iv_separator() + b;
    let p = format_spec(ct, iv, compressed);
    assert forall|i: int| 0 <= i < a.len() implies a[i] != '?' by {
        assert(is_base64_char(a[i]));
    }
    lemma_find_after(a, b);
    if compressed {
        assert(p == gz_prefix() + content);
        assert(p.take(3) == gz_prefix());
        assert(p.skip(3) == content);
    } else {
        assert(p == content);
        if p.len() >= 3 && p.take(3) == gz_prefix() {
            assert(p.take(3)[0] == p[0] && p.take(3)[1] == p[1] && p.take(3)[2] == p[2]);
            if a.len() > 2 {
                assert(p[2] == a[2]);
                assert(is_base64_char(a[2]));
            } else if a.len() == 2 {
                assert(p[2] == '?');
            } else if a.len() == 1 {
                assert(p[1] == '?');
            } else {
                assert(p[0] == '?');
            }
        }
    }
    assert(content.take(a.len() as int) == a);
    assert(content.skip(a.len() as int + 4) == b);
}

/// Encrypt with the compression rule, using an already derived shared secret
/// and a caller-supplied IV. What it produces decrypts with the same secret
/// back to the message.
pub fn encrypt_auto_with_secret_iv(secret: &[u8; 32], iv: &[u8; 16], message: &str) -> (r: Result<String>)
    ensures
        match auto_choice(encode_utf8(message@)) {
            None => r matches Err(Error::Gzip(_)),
            Some((data, c)) => r matches Ok(s) && s@ == format_spec(aes256_cbc_encrypted(secret@, iv@, data), iv@, c)
                && starts_gz(s@) == c,
        },
        r is Ok ==> decrypt_with_secret_spec(secret@, r->Ok_0@) == Ok::<Seq<char>, Error>(message@),
{
    let plaintext = message.as_bytes();
    let ghost pt = plaintext@;
    let mut data: Vec<u8> = Vec::new();
    let mut compressed = false;
    if plaintext.len() > COMPRESSION_THRESHOLD {
        let c = match gzip(plaintext) {
            Ok(c) => c,
            Err(msg) => return Err(Error::Gzip(msg)),
        };
        if c.len() < plaintext.len() {
            data = c;
            compressed = true;
        } else {
            append_bytes(&mut data, plaintext);
        }
    } else {
        append_bytes(&mut data, plaintext);
    }
    assert(auto_choice(pt) == Some((data@, compressed)));
    let ct = aes_cbc_encrypt(secret, iv, data.as_slice());
    let s = format(ct.as_slice(), iv, compressed);
    proof {
        lemma_parse_format(ct@, iv@, compressed);
        assert(split_spec(s@) matches Some((_, _, cc)) && cc == compressed);
        encode_utf8_valid_utf8(message@);
        encode_utf8_decode_utf8(message@);
    }
    Ok(s)
}

/// NIP-04 encryption without compression of `message` from `my` to `peer`.
pub open spec fn encrypt_with_iv_spec(my: Seq<u8>, peer: Seq<u8>, message: Seq<char>, iv: Seq<u8>) -> core::result::Result<Seq<char>, Error> {
    match shared_secret_spec(my, peer) {
        Err(e) => Err(e),
        Ok(k) => Ok(format_spec(aes256_cbc_encrypted(k, iv, encode_utf8(message)), iv, false)),
    }
}

/// NIP-04 encryption with the compression rule of `message` from `my` to `peer`.
pub open spec fn encrypt_auto_with_iv_spec(my: Seq<u8>, peer: Seq<u8>, message: Seq<char>, iv: Seq<u8>) -> core::result::Result<Seq<char>, Error> {
    match shared_secret_spec(my, peer) {
        Err(e) => Err(e),
        Ok(k) => match auto_choice(encode_utf8(message)) {
            None => Err(some_gzip_error()),
            Some((data, c)) => Ok(format_spec(aes256_cbc_encrypted(k, iv, data), iv, c)),
        },
    }
}

/// The payload starts with the `gz:` compression marker.
pub open spec fn starts_gz(s: Seq<char>) -> bool {
    s.len() >= 3 && s.take(3) == gz_prefix()
}

/// Encrypt without compression, using a caller-supplied IV. Decrypting the
/// result with the shared secret gives the message back; the ciphertext is the
/// message padded to whole 16-byte blocks; the payload never carries the `gz:`
/// marker; and the peer, encrypting the same message with the same IV to this
/// side, produces the same payload.
pub fn encrypt_with_iv(my_secret: &[u8; 32], peer_xonly: &[u8; 32], message: &str, iv: &[u8; 16]) -> (r: Result<String>)
    ensures
        match shared_secret_spec(my_secret@, peer_xonly@) {
            Err(e) => r == Err::<String, Error>(e),
            Ok(k) => r matches Ok(s) && s@ == format_spec(aes256_cbc_encrypted(k, iv@, encode_utf8(message@)), iv@, false)
                && decrypt_with_secret_spec(k, s@) == Ok::<Seq<char>, Error>(message@)
                && aes256_cbc_encrypted(k, iv@, encode_utf8(message@)).len() == 16 * (encode_utf8(message@).len() / 16 + 1),
        },
        r is Ok ==> !starts_gz(r->Ok_0@),
        r is Ok ==> forall|other: Seq<u8>| #[trigger] secp256k1_xonly(other) == Some(peer_xonly@)
            ==> encrypt_with_iv_spec(other, secp256k1_xonly(my_secret@)->0, message@, iv@) == Ok::<Seq<char>, Error>(r->Ok_0@),
{
    let secret = match derive_shared_secret(my_secret, peer_xonly) {
        Ok(s) => s,
        Err(e) => return Err(e),
    };
    let ct = aes_cbc_encrypt(&secret, iv, message.as_bytes());
    let s = format(ct.as_slice(), iv, false);
    proof {
        lemma_parse_format(ct@, iv@, false);
        encode_utf8_valid_utf8(message@);
        encode_utf8_decode_utf8(message@);
        assert(split_spec(s@) matches Some((_, _, c)) && !c);
    }
    Ok(s)
}

/// Encrypt with the compression rule (GZIP when the message exceeds 1024 bytes
/// and compression makes it smaller). Decrypting the result with the shared
/// secret gives the message back.
pub fn encrypt_auto_with_iv(my_secret: &[u8; 32], peer_xonly: &[u8; 32], message: &str, iv: &[u8; 16]) -> (r: Result<String>)
    ensures
        encode_utf8(message@).len() <= 1024 ==> match encrypt_with_iv_spec(my_secret@, peer_xonly@, message@, iv@) {
            Ok(p) => r is Ok && r->Ok_0@ == p,
            Err(e) => r == Err::<String, Error>(e),
        },
        r is Ok && starts_gz(r->Ok_0@) ==> encode_utf8(message@).len() > 1024,
        r is Ok ==> forall|other: Seq<u8>| #[trigger] secp256k1_xonly(other) == Some(peer_xonly@)
            ==> encrypt_auto_with_iv_spec(other, secp256k1_xonly(my_secret@)->0, message@, iv@) == Ok::<Seq<char>, Error>(r->Ok_0@),
        match shared_secret_spec(my_secret@, peer_xonly@) {
            Err(e) => r == Err::<String, Error>(e),
            Ok(k) => match auto_choice(encode_utf8(message@)) {
                None => r matches Err(Error::Gzip(_)),
                Some((data, c)) => r matches Ok(s) && s@ == format_spec(aes256_cbc_encrypted(k, iv@, data), iv@, c)
                    && decrypt_with_secret_spec(k, s@) == Ok::<Seq<char>, Error>(message@),
            },
        },
{
    let secret = match derive_shared_secret(my_secret, peer_xonly) {
        Ok(s) => s,
        Err(e) => return Err(e),
    };
    encrypt_auto_with_secret_iv(&secret, iv, message)
}

} // verus!
