//! NIP-44 in the Unicity variant (not official NIP-44 v2):
//!
//! * conversation key = `HKDF-SHA256(ikm = ECDH_x, salt = both x-only keys in
//!   ascending order (64 bytes), info = "nip44-v2", 32 bytes)`
//! * message key = `HKDF-SHA256(ikm = conversation key, salt = nonce, info = "", 76 bytes)`;
//!   ChaCha20 key = bytes 0..32, ChaCha20 nonce = bytes 32..44
//! * cipher = ChaCha20-Poly1305 AEAD without associated data, tag appended
//! * payload = base64(`0x02 || nonce(24) || ciphertext || tag`)
use vstd::prelude::*;
use vstd::arithmetic::div_mod::*;
use vstd::arithmetic::mul::*;

use chacha20poly1305::aead::Aead;
use chacha20poly1305::{ChaCha20Poly1305, Key, KeyInit, Nonce};

use crate::crypto::digest::{hkdf_sha256, hkdf_sha256_okm};
use crate::crypto::encoding::{base64_decode, base64_encode, base64_standard, base64_standard_decoded};
use crate::crypto::secp::{ecdh_shared_x, ecdh_x, secp256k1_x_on_curve, secp256k1_xonly, valid_secret, xonly_public_key};
use crate::error::{Error, Result};

verus! {

/// Largest message NIP-44 carries.
pub const MAX_MESSAGE_LEN: usize = 65535;

/// Smallest power of two that is at least `n`, searching upwards from `p`.
pub open spec fn next_pow2_from(n: nat, p: nat) -> nat
    decreases (if p < n { n - p } else { 0 }),
{
    if p == 0 || p >= n {
        p
    } else {
        next_pow2_from(n, 2 * p)
    }
}

/// NIP-44 padded length for `n` message bytes: 32 up to 32 bytes, otherwise
/// rounded up to a multiple of `max(32, next_power_of_two(n) / 8)`.
pub open spec fn padded_len_spec(n: nat) -> nat {
    if n <= 32 {
        32
    } else {
        let chunk = if next_pow2_from(n, 1) / 8 > 32 { next_pow2_from(n, 1) / 8 } else { 32 };
        (((n + chunk - 1) as nat) / chunk) * chunk
    }
}

/// Outcome of `calc_padded_len`.
pub open spec fn calc_padded_len_spec(n: nat) -> core::result::Result<nat, Error> {
    if n == 0 {
        Err(Error::Padding("message too short"))
    } else if n > 65535 {
        Err(Error::Padding("message too long"))
    } else {
        Ok(padded_len_spec(n))
    }
}

proof fn lemma_next_pow2(n: nat, p: nat)
    requires
        p >= 1,
    ensures
        next_pow2_from(n, p) >= n,
        next_pow2_from(n, p) >= p,
        p < n ==> next_pow2_from(n, p) < 2 * n,
    decreases (if p < n { n - p } else { 0 }),
{
    if p < n {
        lemma_next_pow2(n, 2 * p);
    }
}

proof fn lemma_padded_len_bounds(n: nat)
    requires
        1 <= n <= 65535,
    ensures
        padded_len_spec(n) >= n,
        padded_len_spec(n) >= 32,
        padded_len_spec(n) <= 131072,
{
    if n > 32 {
        lemma_next_pow2(n, 1);
        let np = next_pow2_from(n, 1);
        let chunk = if np / 8 > 32 { np / 8 } else { 32 };
        let c = chunk as int;
        let x = (n + chunk - 1) as int;
        assert(c > 0);
        assert(c <= 16384);
        let q = x / c;
        lemma_fundamental_div_mod(x, c);
        lemma_mod_pos_bound(x, c);
        lemma_mul_is_commutative(c, q);
        assert(q * c >= n) by (nonlinear_arith)
            requires c * q + x % c == x, x % c < c, x == n + c - 1;
        assert(q * c <= x) by (nonlinear_arith)
            requires c * q + x % c == x, 0 <= x % c;
        assert(padded_len_spec(n) == q * c);
    }
}

/// A power of two reached from 1 by doubling up to a bound.
proof fn lemma_pow2_le(n: nat)
    requires
        1 <= n <= 65535,
    ensures
        next_pow2_from(n, 1) <= 65536,
        is_doubling(next_pow2_from(n, 1)),
{
    lemma_pow2_le_from(n, 1);
}

/// `x` is a power of two up to 65536.
pub open spec fn is_doubling(x: nat) -> bool {
    x == 1 || x == 2 || x == 4 || x == 8 || x == 16 || x == 32 || x == 64 || x == 128 || x == 256
        || x == 512 || x == 1024 || x == 2048 || x == 4096 || x == 8192 || x == 16384 || x == 32768
        || x == 65536
}

proof fn lemma_pow2_le_from(n: nat, p: nat)
    requires
        1 <= n <= 65535,
        is_doubling(p),
    ensures
        next_pow2_from(n, p) <= 65536,
        is_doubling(next_pow2_from(n, p)),
    decreases (if p < n { n - p } else { 0 }),
{
    if p < n {
        lemma_pow2_le_from(n, 2 * p);
    }
}

/// The chunk that lengths above 32 are rounded up to: `max(32, next_power_of_two(n) / 8)`.
pub open spec fn pad_chunk(n: nat) -> nat {
    if next_pow2_from(n, 1) / 8 > 32 {
        next_pow2_from(n, 1) / 8
    } else {
        32
    }
}

/// The chunk sizes: powers of two from 32 to 8192.
pub open spec fn is_chunk(c: int) -> bool {
    c == 32 || c == 64 || c == 128 || c == 256 || c == 512 || c == 1024 || c == 2048 || c == 4096
        || c == 8192
}

proof fn lemma_chunk_of(np: nat)
    requires
        is_doubling(np),
        np >= 33,
    ensures
        is_chunk(if np / 8 > 32 { (np / 8) as int } else { 32 }),
        np as int % (if np / 8 > 32 { (np / 8) as int } else { 32 }) == 0,
{
    let c: int = if np / 8 > 32 { (np / 8) as int } else { 32 };
    let k: int = if np <= 256 { (np / 32) as int } else { 8 };
    if np == 64 {
    } else if np == 128 {
    } else if np == 256 {
    } else if np == 512 {
    } else if np == 1024 {
    } else if np == 2048 {
    } else if np == 4096 {
    } else if np == 8192 {
    } else if np == 16384 {
    } else if np == 32768 {
    } else {
        assert(np == 65536);
    }
    assert(np == k * c);
    lemma_mod_multiples_basic(k, c);
}

proof fn lemma_chunk_divides(a: int, b: int)
    requires
        is_chunk(a),
        is_chunk(b),
        a <= b,
    ensures
        b % a == 0,
        a % 32 == 0,
{
    if a == 32 {
    } else if a == 64 {
    } else if a == 128 {
    } else if a == 256 {
    } else if a == 512 {
    } else if a == 1024 {
    } else if a == 2048 {
    } else if a == 4096 {
    } else {
    }
}

proof fn lemma_next_pow2_monotone(m: nat, n: nat, p: nat)
    requires
        m <= n,
        p >= 1,
    ensures
        next_pow2_from(m, p) <= next_pow2_from(n, p),
    decreases (if p < n { n - p } else { 0 }),
{
    if p < m {
        lemma_next_pow2_monotone(m, n, 2 * p);
    } else if p < n {
        lemma_next_pow2(n, 2 * p);
    }
}

/// Rounding `m` up to a multiple of `c` gives at most any multiple of `c` that is at least `m`.
proof fn lemma_round_up_least(m: int, c: int, k: int)
    requires
        c > 0,
        k >= 0,
        c * k >= m,
        m >= 0,
    ensures
        ((m + c - 1) / c) * c <= k * c,
{
    lemma_div_is_ordered(m + c - 1, c * k + (c - 1), c);
    lemma_mul_is_commutative(c, k);
    lemma_fundamental_div_mod_converse(c * k + (c - 1), c, k, c - 1);
    let q = (m + c - 1) / c;
    lemma_div_pos_is_pos(m + c - 1, c);
    lemma_mul_inequality(q, k, c);
}

/// The padded length of a message of `n` bytes (`1 <= n <= 65535`) is a multiple
/// of 32 between `max(n, 32)` and 65536, and adds fewer bytes than one chunk
/// (`max(32, next_power_of_two(n) / 8)`).
pub proof fn lemma_padded_len_laws(n: nat)
    requires
        1 <= n <= 65535,
    ensures
        padded_len_spec(n) >= n,
        padded_len_spec(n) >= 32,
        padded_len_spec(n) % 32 == 0,
        padded_len_spec(n) <= 65536,
        padded_len_spec(n) - n < pad_chunk(n),
{
    lemma_padded_len_bounds(n);
    lemma_pow2_le(n);
    lemma_next_pow2(n, 1);
    if n > 32 {
        let np = next_pow2_from(n, 1);
        let c = pad_chunk(n) as int;
        let x = (n + c - 1) as int;
        let q = x / c;
        lemma_chunk_of(np);
        lemma_chunk_divides(c, c);
        assert(c % 32 == 0 && c > 0 && (np as int) % c == 0 && np >= n);
        lemma_fundamental_div_mod(x, c);
        lemma_mod_pos_bound(x, c);
        lemma_mul_is_commutative(c, q);
        assert(q * c <= x) by (nonlinear_arith)
            requires c * q + x % c == x, 0 <= x % c;
        assert(padded_len_spec(n) == q * c);
        lemma_div_pos_is_pos(x, c);
        lemma_mul_mod_noop_left(q, c, 32);
        lemma_mod_self_0(c);
        assert(c % 32 == 0);
        lemma_mul_mod_noop_right(q, c, 32);
        lemma_mul_basics(q);
        assert((q * c) % 32 == (q * (c % 32)) % 32);
        assert((q * c) % 32 == 0);
        lemma_fundamental_div_mod(np as int, c);
        lemma_mul_is_commutative(c, np as int / c);
        lemma_div_pos_is_pos(np as int, c);
        lemma_round_up_least(n as int, c, np as int / c);
    }
}

/// A longer message never gets a shorter padded length.
pub proof fn lemma_padded_len_monotone(m: nat, n: nat)
    requires
        1 <= m <= n <= 65535,
    ensures
        padded_len_spec(m) <= padded_len_spec(n),
{
    lemma_padded_len_laws(m);
    lemma_padded_len_laws(n);
    if m > 32 {
        lemma_next_pow2_monotone(m, n, 1);
        lemma_pow2_le(m);
        lemma_pow2_le(n);
        let cm = pad_chunk(m) as int;
        let cn = pad_chunk(n) as int;
        lemma_next_pow2(m, 1);
        lemma_next_pow2(n, 1);
        lemma_chunk_of(next_pow2_from(m, 1));
        lemma_chunk_of(next_pow2_from(n, 1));
        assert(cm <= cn);
        lemma_chunk_divides(cm, cn);
        let xn = (n + cn - 1) as int;
        let qn = xn / cn;
        let y = qn * cn;
        assert(padded_len_spec(n) == y);
        lemma_div_pos_is_pos(xn, cn);
        lemma_fundamental_div_mod(cn, cm);
        let r = cn / cm;
        lemma_div_pos_is_pos(cn, cm);
        assert(cn == cm * r);
        lemma_mul_is_associative(qn, r, cm);
        lemma_mul_is_commutative(cm, r);
        assert(y == (qn * r) * cm);
        lemma_mul_nonnegative(qn, r);
        lemma_mul_is_commutative(cm, qn * r);
        lemma_round_up_least(m as int, cm, qn * r);
    }
}

/// NIP-44 padded length for an unpadded message length (power-of-two chunking).
pub fn calc_padded_len(unpadded_len: usize) -> (r: Result<usize>)
    ensures
        match r {
            Ok(v) => calc_padded_len_spec(unpadded_len as nat) == Ok::<nat, Error>(v as nat),
            Err(e) => calc_padded_len_spec(unpadded_len as nat) == Err::<nat, Error>(e),
        },
{
    if unpadded_len == 0 {
        return Err(Error::Padding("message too short"));
    }
    if unpadded_len > MAX_MESSAGE_LEN {
        return Err(Error::Padding("message too long"));
    }
    if unpadded_len <= 32 {
        return Ok(32);
    }
    proof {
        lemma_pow2_le(unpadded_len as nat);
        lemma_padded_len_bounds(unpadded_len as nat);
    }
    let mut p: u32 = 1;
    let n = unpadded_len as u32;
    while p < n
        invariant
            1 <= p,
            is_doubling(p as nat),
            n == unpadded_len,
            32 < n <= 65535,
            next_pow2_from(n as nat, p as nat) == next_pow2_from(n as nat, 1),
        decreases 65536 - p,
    {
        p = p * 2;
    }
    let eighth = p / 8;
    let chunk: usize = if eighth > 32 { eighth as usize } else { 32 };
    Ok(((unpadded_len + chunk - 1) / chunk) * chunk)
}

/// `len(2 bytes, big endian) || message || zero padding` up to
/// `2 + padded_len_spec(len)` bytes.
pub open spec fn pad_spec(message: Seq<u8>) -> Seq<u8> {
    let n = message.len();
    seq![(n / 256) as u8, (n % 256) as u8] + message + Seq::new(
        (padded_len_spec(n) - n) as nat,
        |i: int| 0u8,
    )
}

/// Pad a message; fails for an empty message and for one longer than 65535 bytes.
pub fn pad(message: &[u8]) -> (r: Result<Vec<u8>>)
    ensures
        match r {
            Ok(v) => 1 <= message@.len() <= 65535 && v@ == pad_spec(message@),
            Err(e) => (message@.len() == 0 && e == Error::Padding("message too short")) || (
            message@.len() > 65535 && e == Error::Padding("message too long")),
        },
{
    let len = message.len();
    if len == 0 {
        return Err(Error::Padding("message too short"));
    }
    if len > MAX_MESSAGE_LEN {
        return Err(Error::Padding("message too long"));
    }
    let padded_len = match calc_padded_len(len) {
        Ok(v) => v,
        Err(e) => return Err(e),
    };
    proof {
        lemma_padded_len_bounds(len as nat);
    }
    let mut out: Vec<u8> = Vec::new();
    out.push(((len >> 8) & 0xff) as u8);
    out.push((len & 0xff) as u8);
    proof {
        assert(((len >> 8) & 0xff) == len / 256) by (bit_vector)
            requires len <= 65535usize;
        assert((len & 0xff) == len % 256) by (bit_vector);
    }
    let ghost o0 = out@;
    for i in 0..len
        invariant
            len == message@.len(),
            out@ == o0 + message@.take(i as int),
    {
        out.push(message[i]);
        assert(message@.take(i + 1) == message@.take(i as int).push(message@[i as int]));
    }
    assert(message@.take(len as int) == message@);
    let ghost o1 = out@;
    let extra = padded_len - len;
    for k in 0..extra
        invariant
            out@ == o1 + Seq::new(k as nat, |i: int| 0u8),
    {
        out.push(0u8);
        assert(Seq::new((k + 1) as nat, |i: int| 0u8) == Seq::new(k as nat, |i: int| 0u8).push(0u8));
    }
    Ok(out)
}

/// Outcome of `unpad`.
pub open spec fn unpad_spec(padded: Seq<u8>) -> core::result::Result<Seq<u8>, Error> {
    if padded.len() < 34 {
        Err(Error::Padding("padded message too short"))
    } else {
        let len = (padded[0] as nat) * 256 + padded[1] as nat;
        if len == 0 || len > 65535 {
            Err(Error::Padding("invalid message length"))
        } else if padded.len() != 2 + padded_len_spec(len) {
            Err(Error::Padding("invalid padding"))
        } else {
            Ok(padded.subrange(2, 2 + len as int))
        }
    }
}

/// Reverse of `pad`.
pub fn unpad(padded: &[u8]) -> (r: Result<Vec<u8>>)
    ensures
        match r {
            Ok(v) => unpad_spec(padded@) == Ok::<Seq<u8>, Error>(v@),
            Err(e) => unpad_spec(padded@) == Err::<Seq<u8>, Error>(e),
        },
{
    if padded.len() < 34 {
        return Err(Error::Padding("padded message too short"));
    }
    let len = ((padded[0] as usize) << 8) | (padded[1] as usize);
    proof {
        let a = padded@[0];
        let b = padded@[1];
        assert(((a as usize) << 8usize) | (b as usize) == (a as usize) * 256 + (b as usize)) by (bit_vector);
    }
    if len == 0 || len > MAX_MESSAGE_LEN {
        return Err(Error::Padding("invalid message length"));
    }
    let expected = match calc_padded_len(len) {
        Ok(v) => v,
        Err(e) => return Err(e),
    };
    if padded.len() - 2 != expected {
        return Err(Error::Padding("invalid padding"));
    }
    proof {
        lemma_padded_len_bounds(len as nat);
    }
    let mut out: Vec<u8> = Vec::new();
    for i in 0..len
        invariant
            len + 2 <= padded.len(),
            padded@.len() == padded.len(),
            out@ == padded@.subrange(2, 2 + i as int),
    {
        out.push(padded[2 + i]);
        assert(padded@.subrange(2, 2 + i + 1) == padded@.subrange(2, 2 + i as int).push(padded@[2 + i]));
    }
    Ok(out)
}

/// Unpadding a padded message gives the message back.
pub proof fn lemma_unpad_pad(message: Seq<u8>)
    requires
        1 <= message.len() <= 65535,
    ensures
        unpad_spec(pad_spec(message)) == Ok::<Seq<u8>, Error>(message),
{
    let n = message.len();
    lemma_padded_len_bounds(n);
    let p = pad_spec(message);
    assert(p[0] as nat * 256 + p[1] as nat == n) by {
        assert(p[0] == (n / 256) as u8);
        assert(p[1] == (n % 256) as u8);
    }
    assert(p.subrange(2, 2 + n as int) == message);
}


/// ChaCha20-Poly1305 (RFC 8439) encryption without associated data:
/// ciphertext followed by the 16-byte tag.
pub uninterp spec fn chacha20poly1305_sealed(key: Seq<u8>, nonce: Seq<u8>, pt: Seq<u8>) -> Seq<u8>;

/// ChaCha20-Poly1305 decryption without associated data; `None` when the tag
/// does not authenticate.
pub uninterp spec fn chacha20poly1305_opened(key: Seq<u8>, nonce: Seq<u8>, ct: Seq<u8>) -> Option<Seq<u8>>;

/// `ChaCha20Poly1305::new(key).encrypt(nonce, pt)`.
/// Trusted: the result is the sealed text, 16 bytes longer than `pt`, and it
/// opens again to `pt` under the same key and nonce (AEAD correctness).
/// The crate fails only for messages of 2^32 blocks or more, excluded here.
#[verifier::external_body]
fn chacha_seal(key: &[u8], nonce: &[u8], pt: &[u8]) -> (r: Vec<u8>)
    requires
        key@.len() == 32,
        nonce@.len() == 12,
        pt@.len() < 0x1_0000_0000,
    ensures
        r@ == chacha20poly1305_sealed(key@, nonce@, pt@),
        r@.len() == pt@.len() + 16,
        chacha20poly1305_opened(key@, nonce@, r@) == Some(pt@),
{
    let cipher = ChaCha20Poly1305::new(Key::from_slice(key));
    match cipher.encrypt(Nonce::from_slice(nonce), pt) {
        Ok(c) => c,
        Err(_) => Vec::new(),
    }
}

/// `ChaCha20Poly1305::new(key).decrypt(nonce, ct)`.
/// Trusted: `Some` exactly when the tag authenticates, holding the plaintext.
#[verifier::external_body]
fn chacha_open(key: &[u8], nonce: &[u8], ct: &[u8]) -> (r: Option<Vec<u8>>)
    requires
        key@.len() == 32,
        nonce@.len() == 12,
    ensures
        r is Some <==> chacha20poly1305_opened(key@, nonce@, ct@) is Some,
        r is Some ==> chacha20poly1305_opened(key@, nonce@, ct@) == Some(r->0@),
{
    let cipher = ChaCha20Poly1305::new(Key::from_slice(key));
    cipher.decrypt(Nonce::from_slice(nonce), ct).ok()
}

/// Lexicographic order of byte strings of equal length.
pub open spec fn lex_le(a: Seq<u8>, b: Seq<u8>) -> bool
    decreases a.len(),
{
    if a.len() == 0 || b.len() == 0 {
        a.len() <= b.len()
    } else if a[0] != b[0] {
        a[0] < b[0]
    } else {
        lex_le(a.drop_first(), b.drop_first())
    }
}

proof fn lemma_lex_total(a: Seq<u8>, b: Seq<u8>)
    requires
        a.len() == b.len(),
    ensures
        lex_le(a, b) || lex_le(b, a),
        lex_le(a, b) && lex_le(b, a) ==> a == b,
    decreases a.len(),
{
    if a.len() > 0 && a[0] == b[0] {
        lemma_lex_total(a.drop_first(), b.drop_first());
        if lex_le(a, b) && lex_le(b, a) {
            assert(a == seq![a[0]] + a.drop_first());
            assert(b == seq![b[0]] + b.drop_first());
        }
    }
}

fn slice_lex_le(a: &[u8], b: &[u8]) -> (r: bool)
    requires
        a@.len() == b@.len(),
    ensures
        r == lex_le(a@, b@),
{
    let n = a.len();
    let mut i: usize = 0;
    assert(a@.skip(0) == a@);
    assert(b@.skip(0) == b@);
    while i < n
        invariant
            n == a@.len(),
            n == b@.len(),
            i <= n,
            lex_le(a@, b@) == lex_le(a@.skip(i as int), b@.skip(i as int)),
        decreases n - i,
    {
        assert(a@.skip(i as int).drop_first() == a@.skip(i + 1));
        assert(b@.skip(i as int).drop_first() == b@.skip(i + 1));
        if a[i] != b[i] {
            return a[i] < b[i];
        }
        i = i + 1;
    }
    true
}

/// The HKDF salt of the conversation key: both x-only keys, ascending.
pub open spec fn sorted_salt(a: Seq<u8>, b: Seq<u8>) -> Seq<u8> {
    if lex_le(a, b) {
        a + b
    } else {
        b + a
    }
}

/// The salt does not depend on which party computes it.
pub proof fn lemma_sorted_salt_symmetric(a: Seq<u8>, b: Seq<u8>)
    requires
        a.len() == b.len(),
    ensures
        sorted_salt(a, b) == sorted_salt(b, a),
{
    lemma_lex_total(a, b);
}

/// The HKDF info string `"nip44-v2"`.
pub open spec fn nip44_info() -> Seq<u8> {
    seq![110u8, 105u8, 112u8, 52u8, 52u8, 45u8, 118u8, 50u8]
}

/// The conversation key of `secret` with the peer's x-only key.
pub open spec fn conversation_key_spec(secret: Seq<u8>, peer: Seq<u8>) -> core::result::Result<Seq<u8>, Error> {
    if !valid_secret(secret) {
        Err(Error::Secp("invalid secret key"))
    } else if !secp256k1_x_on_curve(peer) {
        Err(Error::Secp("invalid peer public key"))
    } else {
        Ok(hkdf_sha256_okm(
            sorted_salt(secp256k1_xonly(secret)->0, peer),
            ecdh_shared_x(secret, peer)->0,
            nip44_info(),
            32,
        ))
    }
}

/// Derive the 32-byte conversation key from my secret and the peer's x-only key.
/// Both parties derive the same key: for the secret whose x-only key is
/// `peer_xonly`, the key against this secret's x-only key is the same.
pub fn derive_conversation_key(my_secret: &[u8; 32], peer_xonly: &[u8; 32]) -> (r: Result<[u8; 32]>)
    ensures
        match r {
            Ok(k) => conversation_key_spec(my_secret@, peer_xonly@) == Ok::<Seq<u8>, Error>(k@),
            Err(e) => conversation_key_spec(my_secret@, peer_xonly@) == Err::<Seq<u8>, Error>(e),
        },
        r is Ok ==> forall|other: Seq<u8>| #[trigger] secp256k1_xonly(other) == Some(peer_xonly@)
            ==> conversation_key_spec(other, secp256k1_xonly(my_secret@)->0) == Ok::<Seq<u8>, Error>(r->Ok_0@),
{
    let shared_x = match ecdh_x(my_secret, peer_xonly) {
        Ok(x) => x,
        Err(e) => return Err(e),
    };
    let my_pub = match xonly_public_key(my_secret) {
        Ok(p) => p,
        Err(e) => return Err(e),
    };
    let mut salt: Vec<u8> = Vec::new();
    let first_mine = slice_lex_le(my_pub.as_slice(), peer_xonly.as_slice());
    if first_mine {
        append_bytes(&mut salt, my_pub.as_slice());
        append_bytes(&mut salt, peer_xonly.as_slice());
    } else {
        append_bytes(&mut salt, peer_xonly.as_slice());
        append_bytes(&mut salt, my_pub.as_slice());
    }
    let info: [u8; 8] = [110u8, 105u8, 112u8, 52u8, 52u8, 45u8, 118u8, 50u8];
    assert(info@ == nip44_info());
    let okm = match hkdf_sha256(salt.as_slice(), shared_x.as_slice(), info.as_slice(), 32) {
        Some(v) => v,
        None => return Err(Error::Secp("hkdf expand")),
    };
    let key = crate::text::to_array32(okm.as_slice());
    proof {
        assert forall|other: Seq<u8>| #[trigger] secp256k1_xonly(other) == Some(peer_xonly@) implies
            conversation_key_spec(other, secp256k1_xonly(my_secret@)->0) == Ok::<Seq<u8>, Error>(key@) by {
            lemma_sorted_salt_symmetric(my_pub@, peer_xonly@);
        }
    }
    Ok(key)
}

/// Append the bytes of `b`.
pub fn append_bytes(v: &mut Vec<u8>, b: &[u8])
    ensures
        final(v)@ == old(v)@ + b@,
{
    let ghost v0 = v@;
    let n = b.len();
    for i in 0..n
        invariant
            n == b@.len(),
            v@ == v0 + b@.take(i as int),
    {
        v.push(b[i]);
        assert(b@.take(i + 1) == b@.take(i as int).push(b@[i as int]));
    }
    assert(b@.take(n as int) == b@);
}

/// The 76-byte message key for a nonce.
pub open spec fn message_key_spec(conversation_key: Seq<u8>, nonce: Seq<u8>) -> Seq<u8> {
    hkdf_sha256_okm(nonce, conversation_key, seq![], 76)
}

/// The raw payload bytes: version, nonce, sealed padded message.
pub open spec fn payload_bytes_spec(conversation_key: Seq<u8>, nonce: Seq<u8>, plaintext: Seq<u8>) -> Seq<u8> {
    let mk = message_key_spec(conversation_key, nonce);
    seq![2u8] + nonce + chacha20poly1305_sealed(mk.subrange(0, 32), mk.subrange(32, 44), pad_spec(plaintext))
}

/// Outcome of NIP-44 encryption with a given key and nonce.
pub open spec fn encrypt_spec(conversation_key: Seq<u8>, nonce: Seq<u8>, plaintext: Seq<u8>) -> core::result::Result<Seq<char>, Error> {
    if plaintext.len() > 65535 {
        Err(Error::Padding("message too long"))
    } else if plaintext.len() == 0 {
        Err(Error::Padding("message too short"))
    } else {
        Ok(base64_standard(payload_bytes_spec(conversation_key, nonce, plaintext)))
    }
}

/// Outcome of NIP-44 decryption of decoded payload bytes.
pub open spec fn decrypt_bytes_spec(conversation_key: Seq<u8>, p: Seq<u8>) -> core::result::Result<Seq<u8>, Error> {
    if p.len() < 73 {
        Err(Error::Malformed("nip44 payload too short"))
    } else if p[0] != 2 {
        Err(Error::Malformed("nip44 unsupported version"))
    } else {
        let mk = message_key_spec(conversation_key, p.subrange(1, 25));
        match chacha20poly1305_opened(mk.subrange(0, 32), mk.subrange(32, 44), p.subrange(25, p.len() as int)) {
            None => Err(Error::Decrypt("aead: bad tag")),
            Some(padded) => unpad_spec(padded),
        }
    }
}

fn derive_message_key(conversation_key: &[u8; 32], nonce: &[u8]) -> (r: Result<Vec<u8>>)
    ensures
        r is Ok && r->Ok_0@ == message_key_spec(conversation_key@, nonce@) && r->Ok_0@.len() == 76,
{
    let empty: [u8; 0] = [];
    assert(empty@ == Seq::<u8>::empty());
    match hkdf_sha256(nonce, conversation_key.as_slice(), empty.as_slice(), 76) {
        Some(v) => Ok(v),
        None => Err(Error::Secp("hkdf expand")),
    }
}

/// Encrypt with a pre-derived conversation key and an explicit 24-byte nonce.
/// What it produces decrypts (with the same key) back to the plaintext.
pub fn encrypt_with_key_nonce(conversation_key: &[u8; 32], nonce: &[u8; 24], plaintext: &[u8]) -> (r: Result<String>)
    ensures
        match r {
            Ok(s) => encrypt_spec(conversation_key@, nonce@, plaintext@) == Ok::<Seq<char>, Error>(s@),
            Err(e) => encrypt_spec(conversation_key@, nonce@, plaintext@) == Err::<Seq<char>, Error>(e),
        },
        r is Ok ==> (base64_standard_decoded(r->Ok_0@) matches Some(p) && decrypt_bytes_spec(
            conversation_key@,
            p,
        ) == Ok::<Seq<u8>, Error>(plaintext@)),
{
    if plaintext.len() > MAX_MESSAGE_LEN {
        return Err(Error::Padding("message too long"));
    }
    let padded = match pad(plaintext) {
        Ok(p) => p,
        Err(e) => return Err(e),
    };
    proof {
        lemma_padded_len_bounds(plaintext@.len());
    }
    let mk = match derive_message_key(conversation_key, nonce.as_slice()) {
        Ok(m) => m,
        Err(e) => return Err(e),
    };
    let ct = chacha_seal(&mk.as_slice()[0..32], &mk.as_slice()[32..44], padded.as_slice());
    let mut payload: Vec<u8> = Vec::new();
    payload.push(2u8);
    append_bytes(&mut payload, nonce.as_slice());
    append_bytes(&mut payload, ct.as_slice());
    let s = base64_encode(payload.as_slice());
    proof {
        let p = payload@;
        assert(p == payload_bytes_spec(conversation_key@, nonce@, plaintext@));
        assert(p.subrange(1, 25) == nonce@);
        assert(p.subrange(25, p.len() as int) == ct@);
        assert(p[0] == 2u8);
        lemma_unpad_pad(plaintext@);
    }
    Ok(s)
}

/// Decrypt a base64 NIP-44 payload with a pre-derived conversation key.
pub fn decrypt_with_key(conversation_key: &[u8; 32], payload_b64: &str) -> (r: Result<Vec<u8>>)
    ensures
        base64_standard_decoded(payload_b64@) is None ==> r matches Err(Error::Decode(_)),
        base64_standard_decoded(payload_b64@) matches Some(p) ==> match r {
            Ok(v) => decrypt_bytes_spec(conversation_key@, p) == Ok::<Seq<u8>, Error>(v@),
            Err(e) => decrypt_bytes_spec(conversation_key@, p) == Err::<Seq<u8>, Error>(e),
        },
{
    let payload = match base64_decode(payload_b64) {
        Ok(p) => p,
        Err(msg) => {
            let mut m = String::from_str("base64: ");
            crate::text::push_str(&mut m, msg.as_str());
            return Err(Error::Decode(m));
        },
    };
    if payload.len() < 73 {
        return Err(Error::Malformed("nip44 payload too short"));
    }
    if payload[0] != 2u8 {
        return Err(Error::Malformed("nip44 unsupported version"));
    }
    let nonce = &payload.as_slice()[1..25];
    let ciphertext = &payload.as_slice()[25..payload.len()];
    let mk = match derive_message_key(conversation_key, nonce) {
        Ok(m) => m,
        Err(e) => return Err(e),
    };
    let padded = match chacha_open(&mk.as_slice()[0..32], &mk.as_slice()[32..44], ciphertext) {
        Some(p) => p,
        None => return Err(Error::Decrypt("aead: bad tag")),
    };
    unpad(padded.as_slice())
}

/// Outcome of `decrypt`: the conversation key, then decryption with it.
pub fn decrypt(my_secret: &[u8; 32], peer_xonly: &[u8; 32], payload_b64: &str) -> (r: Result<Vec<u8>>)
    ensures
        conversation_key_spec(my_secret@, peer_xonly@) matches Err(e) ==> r == Err::<Vec<u8>, Error>(e),
        conversation_key_spec(my_secret@, peer_xonly@) matches Ok(ck) ==> (
            base64_standard_decoded(payload_b64@) is None ==> r matches Err(Error::Decode(_))) && (
            base64_standard_decoded(payload_b64@) matches Some(p) ==> match r {
                Ok(v) => decrypt_bytes_spec(ck, p) == Ok::<Seq<u8>, Error>(v@),
                Err(e) => decrypt_bytes_spec(ck, p) == Err::<Seq<u8>, Error>(e),
            }),
{
    let ck = match derive_conversation_key(my_secret, peer_xonly) {
        Ok(k) => k,
        Err(e) => return Err(e),
    };
    decrypt_with_key(&ck, payload_b64)
}

} // verus!
