//! Bech32 (BIP-173, not bech32m) with the Nostr `npub` / `nsec` prefixes (NIP-19).
use vstd::prelude::*;
use vstd::arithmetic::power2::*;
use vstd::arithmetic::div_mod::*;
use vstd::arithmetic::mul::*;
use vstd::utf8::*;

use crate::error::{Error, Result};
use crate::text::{
    ascii_lower, ascii_lower_char, ascii_upper, char_from_u32_small, lemma_ascii_lower_upper, lemma_encode_ascii, lemma_encode_utf8_concat,
    lemma_encode_utf8_injective, push_char, str_eq, string_from_utf8, to_array32, to_ascii_lowercase,
};

verus! {

/// The generator term contributed by bit `i` of the top five bits.
pub open spec fn gen_term(top: u32, i: u32, g: u32) -> u32 {
    if (top >> i) & 1u32 == 1u32 { g } else { 0u32 }
}

/// One step of the BCH checksum: shift in the 5-bit value `v` and reduce by
/// the generator polynomial.
pub open spec fn polymod_step(chk: u32, v: u32) -> u32 {
    let top = chk >> 25u32;
    let base = ((chk & 0x1ff_ffffu32) << 5u32) ^ v;
    let a = base ^ gen_term(top, 0, 0x3b6a57b2u32);
    let b = a ^ gen_term(top, 1, 0x26508e6du32);
    let c = b ^ gen_term(top, 2, 0x1ea119fau32);
    let d = c ^ gen_term(top, 3, 0x3d4233ddu32);
    d ^ gen_term(top, 4, 0x2a1462b3u32)
}

/// Six checksum steps fed with zero values.
pub open spec fn steps_zero6(c: u32) -> u32 {
    polymod_step(polymod_step(polymod_step(polymod_step(polymod_step(polymod_step(c, 0), 0), 0), 0), 0), 0)
}

proof fn lemma_step_inject(c: u32, v: u32)
    requires
        v < 32,
    ensures
        polymod_step(c, v) == polymod_step(c, 0) ^ v,
{
    assert(polymod_step(c, v) == polymod_step(c, 0) ^ v) by (bit_vector)
        requires v < 32u32;
}

proof fn lemma_step_linear(a: u32, b: u32)
    ensures
        polymod_step(a ^ b, 0) == polymod_step(a, 0) ^ polymod_step(b, 0),
{
    assert(polymod_step(a ^ b, 0) == polymod_step(a, 0) ^ polymod_step(b, 0)) by (bit_vector);
}

proof fn lemma_step_small(e: u32)
    requires
        e < 0x200_0000,
    ensures
        polymod_step(e, 0) == e << 5u32,
{
    assert(polymod_step(e, 0) == e << 5u32) by (bit_vector)
        requires e < 0x200_0000u32;
}

proof fn lemma_step_bound(c: u32, v: u32)
    requires
        v < 32,
    ensures
        polymod_step(c, v) < 0x4000_0000,
{
    assert(polymod_step(c, v) < 0x4000_0000u32) by (bit_vector)
        requires v < 32u32;
}

/// The five-bit group of `m` starting at bit `sh`.
pub open spec fn group5(m: u32, sh: u32) -> u32 {
    (m >> sh) & 31u32
}

/// Shift `e` left by one five-bit group and append `d`.
pub open spec fn shift_in(e: u32, d: u32) -> u32 {
    (e << 5u32) ^ d
}

proof fn lemma_regroup(m: u32)
    requires
        m < 0x4000_0000,
    ensures
        shift_in(shift_in(shift_in(shift_in(shift_in(group5(m, 25), group5(m, 20)), group5(m, 15)),
            group5(m, 10)), group5(m, 5)), group5(m, 0)) == m,
        group5(m, 25) < 32,
        shift_in(group5(m, 25), group5(m, 20)) < 1024,
        shift_in(shift_in(group5(m, 25), group5(m, 20)), group5(m, 15)) < 32768,
        shift_in(shift_in(shift_in(group5(m, 25), group5(m, 20)), group5(m, 15)), group5(m, 10))
            < 0x10_0000,
        shift_in(shift_in(shift_in(shift_in(group5(m, 25), group5(m, 20)), group5(m, 15)),
            group5(m, 10)), group5(m, 5)) < 0x200_0000,
{
    assert(shift_in(shift_in(shift_in(shift_in(shift_in(group5(m, 25), group5(m, 20)), group5(m, 15)),
            group5(m, 10)), group5(m, 5)), group5(m, 0)) == m) by (bit_vector)
        requires m < 0x4000_0000u32;
    assert(group5(m, 25) < 32) by (bit_vector)
        requires m < 0x4000_0000u32;
    assert(shift_in(group5(m, 25), group5(m, 20)) < 1024) by (bit_vector)
        requires m < 0x4000_0000u32;
    assert(shift_in(shift_in(group5(m, 25), group5(m, 20)), group5(m, 15)) < 32768) by (bit_vector)
        requires m < 0x4000_0000u32;
    assert(shift_in(shift_in(shift_in(group5(m, 25), group5(m, 20)), group5(m, 15)), group5(m, 10))
            < 0x10_0000) by (bit_vector)
        requires m < 0x4000_0000u32;
    assert(shift_in(shift_in(shift_in(shift_in(group5(m, 25), group5(m, 20)), group5(m, 15)),
            group5(m, 10)), group5(m, 5)) < 0x200_0000) by (bit_vector)
        requires m < 0x4000_0000u32;
}

/// Feeding the six checksum digits derived from `c` brings the checksum state to 1.
proof fn lemma_checksum_closes(c: u32)
    ensures
        ({
            let m = steps_zero6(c) ^ 1u32;
            polymod_step(polymod_step(polymod_step(polymod_step(polymod_step(polymod_step(c,
                group5(m, 25)), group5(m, 20)), group5(m, 15)), group5(m, 10)), group5(m, 5)),
                group5(m, 0)) == 1u32
        }),
{
    let z1 = polymod_step(c, 0);
    let z2 = polymod_step(z1, 0);
    let z3 = polymod_step(z2, 0);
    let z4 = polymod_step(z3, 0);
    let z5 = polymod_step(z4, 0);
    let z6 = polymod_step(z5, 0);
    lemma_step_bound(z5, 0);
    assert(z6 ^ 1u32 < 0x4000_0000u32) by (bit_vector)
        requires z6 < 0x4000_0000u32;
    let m = z6 ^ 1u32;
    let d0 = group5(m, 25);
    let d1 = group5(m, 20);
    let d2 = group5(m, 15);
    let d3 = group5(m, 10);
    let d4 = group5(m, 5);
    let d5 = group5(m, 0);
    assert(d0 < 32 && d1 < 32 && d2 < 32 && d3 < 32 && d4 < 32 && d5 < 32) by (bit_vector)
        requires d0 == group5(m, 25), d1 == group5(m, 20), d2 == group5(m, 15),
            d3 == group5(m, 10), d4 == group5(m, 5), d5 == group5(m, 0);
    lemma_regroup(m);
    let e1 = d0;
    let e2 = shift_in(e1, d1);
    let e3 = shift_in(e2, d2);
    let e4 = shift_in(e3, d3);
    let e5 = shift_in(e4, d4);
    assert(0u32 ^ 0u32 == 0u32) by (bit_vector);
    assert(polymod_step(0, 0) == 0) by (bit_vector);
    // state after k digit steps equals z_k ^ e_k
    let s1 = polymod_step(c, d0);
    lemma_step_inject(c, d0);
    assert(s1 == z1 ^ e1);
    let s2 = polymod_step(s1, d1);
    lemma_step_inject(s1, d1);
    lemma_step_linear(z1, e1);
    lemma_step_small(e1);
    assert(s2 == z2 ^ e2) by (bit_vector)
        requires s2 == polymod_step(s1, 0) ^ d1, s1 == z1 ^ e1,
            polymod_step(z1 ^ e1, 0) == polymod_step(z1, 0) ^ polymod_step(e1, 0),
            polymod_step(e1, 0) == e1 << 5u32, z2 == polymod_step(z1, 0), e2 == shift_in(e1, d1);
    let s3 = polymod_step(s2, d2);
    lemma_step_inject(s2, d2);
    lemma_step_linear(z2, e2);
    lemma_step_small(e2);
    assert(s3 == z3 ^ e3) by (bit_vector)
        requires s3 == polymod_step(s2, 0) ^ d2, s2 == z2 ^ e2,
            polymod_step(z2 ^ e2, 0) == polymod_step(z2, 0) ^ polymod_step(e2, 0),
            polymod_step(e2, 0) == e2 << 5u32, z3 == polymod_step(z2, 0), e3 == shift_in(e2, d2);
    let s4 = polymod_step(s3, d3);
    lemma_step_inject(s3, d3);
    lemma_step_linear(z3, e3);
    lemma_step_small(e3);
    assert(s4 == z4 ^ e4) by (bit_vector)
        requires s4 == polymod_step(s3, 0) ^ d3, s3 == z3 ^ e3,
            polymod_step(z3 ^ e3, 0) == polymod_step(z3, 0) ^ polymod_step(e3, 0),
            polymod_step(e3, 0) == e3 << 5u32, z4 == polymod_step(z3, 0), e4 == shift_in(e3, d3);
    let s5 = polymod_step(s4, d4);
    lemma_step_inject(s4, d4);
    lemma_step_linear(z4, e4);
    lemma_step_small(e4);
    assert(s5 == z5 ^ e5) by (bit_vector)
        requires s5 == polymod_step(s4, 0) ^ d4, s4 == z4 ^ e4,
            polymod_step(z4 ^ e4, 0) == polymod_step(z4, 0) ^ polymod_step(e4, 0),
            polymod_step(e4, 0) == e4 << 5u32, z5 == polymod_step(z4, 0), e5 == shift_in(e4, d4);
    let s6 = polymod_step(s5, d5);
    lemma_step_inject(s5, d5);
    lemma_step_linear(z5, e5);
    lemma_step_small(e5);
    assert(s6 == 1u32) by (bit_vector)
        requires s6 == polymod_step(s5, 0) ^ d5, s5 == z5 ^ e5,
            polymod_step(z5 ^ e5, 0) == polymod_step(z5, 0) ^ polymod_step(e5, 0),
            polymod_step(e5, 0) == e5 << 5u32, z6 == polymod_step(z5, 0), shift_in(e5, d5) == m,
            m == z6 ^ 1u32;
}


/// The checksum state after feeding `vals`, starting from `chk`.
pub open spec fn polymod_from(chk: u32, vals: Seq<u8>) -> u32
    decreases vals.len(),
{
    if vals.len() == 0 {
        chk
    } else {
        polymod_step(polymod_from(chk, vals.drop_last()), vals.last() as u32)
    }
}

/// The BCH checksum polynomial of `vals` (BIP-173 `polymod`).
pub open spec fn polymod_spec(vals: Seq<u8>) -> u32 {
    polymod_from(1, vals)
}

proof fn lemma_polymod_append(c: u32, a: Seq<u8>, b: Seq<u8>)
    ensures
        polymod_from(c, a + b) == polymod_from(polymod_from(c, a), b),
    decreases b.len(),
{
    if b.len() == 0 {
        assert(a + b == a);
    } else {
        assert((a + b).drop_last() == a + b.drop_last());
        lemma_polymod_append(c, a, b.drop_last());
    }
}

fn polymod(values: &[u8]) -> (r: u32)
    ensures
        r == polymod_spec(values@),
{
    let mut chk: u32 = 1;
    let n = values.len();
    for i in 0..n
        invariant
            n == values@.len(),
            chk == polymod_from(1, values@.take(i as int)),
    {
        let v = values[i] as u32;
        let top = chk >> 25u32;
        let base = ((chk & 0x1ff_ffffu32) << 5u32) ^ v;
        let a = base ^ (if (top >> 0u32) & 1u32 == 1u32 { 0x3b6a57b2u32 } else { 0u32 });
        let b = a ^ (if (top >> 1u32) & 1u32 == 1u32 { 0x26508e6du32 } else { 0u32 });
        let c = b ^ (if (top >> 2u32) & 1u32 == 1u32 { 0x1ea119fau32 } else { 0u32 });
        let d = c ^ (if (top >> 3u32) & 1u32 == 1u32 { 0x3d4233ddu32 } else { 0u32 });
        chk = d ^ (if (top >> 4u32) & 1u32 == 1u32 { 0x2a1462b3u32 } else { 0u32 });
        assert(values@.take(i + 1).drop_last() == values@.take(i as int));
    }
    assert(values@.take(n as int) == values@);
    chk
}

/// BIP-173 expansion of the human-readable part: high bits, a zero, low bits.
pub open spec fn hrp_expand_spec(hrp: Seq<u8>) -> Seq<u8> {
    hrp.map_values(|c: u8| c >> 5u8) + seq![0u8] + hrp.map_values(|c: u8| c & 31u8)
}

fn hrp_expand(hrp: &[u8]) -> (out: Vec<u8>)
    ensures
        out@ == hrp_expand_spec(hrp@),
{
    let n = hrp.len();
    let mut out: Vec<u8> = Vec::new();
    for i in 0..n
        invariant
            n == hrp@.len(),
            out@ == hrp@.take(i as int).map_values(|c: u8| c >> 5u8),
    {
        out.push(hrp[i] >> 5u8);
        assert(hrp@.take(i + 1).map_values(|c: u8| c >> 5u8) == hrp@.take(i as int).map_values(
            |c: u8| c >> 5u8,
        ).push(hrp@[i as int] >> 5u8));
    }
    assert(hrp@.take(n as int) == hrp@);
    out.push(0u8);
    let ghost mid = out@;
    for i in 0..n
        invariant
            n == hrp@.len(),
            out@ == mid + hrp@.take(i as int).map_values(|c: u8| c & 31u8),
    {
        out.push(hrp[i] & 31u8);
        assert(hrp@.take(i + 1).map_values(|c: u8| c & 31u8) == hrp@.take(i as int).map_values(
            |c: u8| c & 31u8,
        ).push(hrp@[i as int] & 31u8));
    }
    out
}

/// The checksum is valid when the polynomial over `hrp` and `data` is 1.
pub open spec fn checksum_valid(hrp: Seq<u8>, data: Seq<u8>) -> bool {
    polymod_spec(hrp_expand_spec(hrp) + data) == 1
}

fn verify_checksum(hrp: &[u8], data: &[u8]) -> (r: bool)
    ensures
        r == checksum_valid(hrp@, data@),
{
    let mut v = hrp_expand(hrp);
    let n = data.len();
    let ghost v0 = v@;
    for i in 0..n
        invariant
            n == data@.len(),
            v@ == v0 + data@.take(i as int),
    {
        v.push(data[i]);
        assert(data@.take(i + 1) == data@.take(i as int).push(data@[i as int]));
    }
    assert(data@.take(n as int) == data@);
    polymod(&v) == 1
}

/// The six checksum values for `data` under `hrp`.
pub open spec fn checksum_spec(hrp: Seq<u8>, data: Seq<u8>) -> Seq<u8> {
    let m = polymod_spec(hrp_expand_spec(hrp) + data + seq![0u8, 0u8, 0u8, 0u8, 0u8, 0u8]) ^ 1u32;
    seq![
        group5(m, 25) as u8,
        group5(m, 20) as u8,
        group5(m, 15) as u8,
        group5(m, 10) as u8,
        group5(m, 5) as u8,
        group5(m, 0) as u8,
    ]
}

fn create_checksum(hrp: &[u8], data: &[u8]) -> (out: Vec<u8>)
    ensures
        out@ == checksum_spec(hrp@, data@),
        out@.len() == 6,
        forall|j: int| 0 <= j < out@.len() ==> out@[j] < 32,
{
    let mut v = hrp_expand(hrp);
    let n = data.len();
    let ghost v0 = v@;
    for i in 0..n
        invariant
            n == data@.len(),
            v@ == v0 + data@.take(i as int),
    {
        v.push(data[i]);
        assert(data@.take(i + 1) == data@.take(i as int).push(data@[i as int]));
    }
    assert(data@.take(n as int) == data@);
    for k in 0..6usize
        invariant
            v@ == v0 + data@ + Seq::new(k as nat, |j: int| 0u8),
    {
        v.push(0u8);
        assert(Seq::new((k + 1) as nat, |j: int| 0u8) == Seq::new(k as nat, |j: int| 0u8).push(0u8));
    }
    assert(Seq::new(6, |j: int| 0u8) == seq![0u8, 0u8, 0u8, 0u8, 0u8, 0u8]);
    let m = polymod(&v) ^ 1u32;
    let mut out: Vec<u8> = Vec::new();
    assert(group5(m, 25) < 32 && group5(m, 20) < 32 && group5(m, 15) < 32 && group5(m, 10) < 32
        && group5(m, 5) < 32 && group5(m, 0) < 32) by (bit_vector);
    out.push(((m >> 25u32) & 31u32) as u8);
    out.push(((m >> 20u32) & 31u32) as u8);
    out.push(((m >> 15u32) & 31u32) as u8);
    out.push(((m >> 10u32) & 31u32) as u8);
    out.push(((m >> 5u32) & 31u32) as u8);
    out.push(((m >> 0u32) & 31u32) as u8);
    assert(out@ == checksum_spec(hrp@, data@));
    out
}

/// Appending the checksum of `data` to `data` gives a valid checksum.
pub proof fn lemma_checksum_spec_valid(hrp: Seq<u8>, data: Seq<u8>)
    ensures
        checksum_valid(hrp, data + checksum_spec(hrp, data)),
{
    let pre = hrp_expand_spec(hrp) + data;
    let c = polymod_spec(pre);
    let zeros = seq![0u8, 0u8, 0u8, 0u8, 0u8, 0u8];
    lemma_polymod_append(1, pre, zeros);
    reveal_with_fuel(polymod_from, 7);
    assert(polymod_from(c, zeros) == steps_zero6(c));
    let cs = checksum_spec(hrp, data);
    let m = steps_zero6(c) ^ 1u32;
    assert(group5(m, 25) < 32 && group5(m, 20) < 32 && group5(m, 15) < 32 && group5(m, 10) < 32
        && group5(m, 5) < 32 && group5(m, 0) < 32) by (bit_vector);
    lemma_polymod_append(1, pre, cs);
    assert(hrp_expand_spec(hrp) + (data + cs) == pre + cs);
    lemma_checksum_closes(c);
}


/// Every value fits in `w` bits.
pub open spec fn all_fit(data: Seq<u8>, w: nat) -> bool {
    forall|i: int| 0 <= i < data.len() ==> (data[i] as nat) < pow2(w)
}

/// The number whose big-endian base-`2^w` digits are `data`.
pub open spec fn val_be(data: Seq<u8>, w: nat) -> nat
    decreases data.len(),
{
    if data.len() == 0 {
        0
    } else {
        val_be(data.drop_last(), w) * pow2(w) + data.last() as nat
    }
}

/// The lowest `m` big-endian base-`2^w` digits of `x`.
pub open spec fn digits_be(x: nat, w: nat, m: nat) -> Seq<u8>
    decreases m,
{
    if m == 0 {
        seq![]
    } else {
        digits_be(x / pow2(w), w, (m - 1) as nat).push((x % pow2(w)) as u8)
    }
}

/// Regrouping of a bit string from `f`-bit values into `t`-bit values
/// (BIP-173 `convertbits`): `None` when a value does not fit in `f` bits, or,
/// without padding, when the leftover bits are too many or not all zero.
pub open spec fn convert_bits_spec(data: Seq<u8>, f: nat, t: nat, pad: bool) -> Option<Seq<u8>> {
    if !all_fit(data, f) {
        None
    } else {
        let v = val_be(data, f);
        let l = data.len() * f;
        let k = l / t;
        let r = l % t;
        if pad {
            if r == 0 {
                Some(digits_be(v, t, k))
            } else {
                Some(digits_be(v * pow2((t - r) as nat), t, k + 1))
            }
        } else if r >= f || v % pow2(r) != 0 {
            None
        } else {
            Some(digits_be(v / pow2(r), t, k))
        }
    }
}

proof fn lemma_div_pow2_twice(x: nat, a: nat, b: nat)
    ensures
        x / pow2(a) / pow2(b) == x / pow2(a + b),
{
    lemma_pow2_pos(a);
    lemma_pow2_pos(b);
    lemma_pow2_adds(a, b);
    lemma_div_denominator(x as int, pow2(a) as int, pow2(b) as int);
}

proof fn lemma_mod_pow2_mod(x: nat, a: nat, b: nat)
    ensures
        (x % pow2(a + b)) % pow2(a) == x % pow2(a),
{
    lemma_pow2_pos(a);
    lemma_pow2_pos(b);
    lemma_pow2_adds(a, b);
    lemma_mod_mod(x as int, pow2(a) as int, pow2(b) as int);
}

/// `(x / 2^a) % 2^b == (x % 2^(a+b)) / 2^a`.
proof fn lemma_middle_digit(x: nat, a: nat, b: nat)
    ensures
        (x / pow2(a)) % pow2(b) == (x % pow2(a + b)) / pow2(a),
{
    lemma_pow2_pos(a);
    lemma_pow2_pos(b);
    lemma_pow2_adds(a, b);
    let pa = pow2(a) as int;
    let pb = pow2(b) as int;
    lemma_mod_breakdown(x as int, pa, pb);
    // x % (pa * pb) == pa * ((x / pa) % pb) + x % pa
    let q = (x as int / pa) % pb;
    let r = x as int % pa;
    lemma_mod_pos_bound(x as int, pa);
    lemma_mod_pos_bound(x as int / pa, pb);
    lemma_fundamental_div_mod_converse_div(pa * q + r, pa, q, r);
    lemma_mul_is_commutative(pa, q);
}

/// Shifting in a value: `(x * 2^f + v) % 2^(b+f) == (x % 2^b) * 2^f + v` and
/// `(x * 2^f + v) / 2^(b+f) == x / 2^b`, for `v < 2^f`.
proof fn lemma_shift_in_value(x: nat, v: nat, b: nat, f: nat)
    requires
        v < pow2(f),
    ensures
        (x * pow2(f) + v) % pow2(b + f) == (x % pow2(b)) * pow2(f) + v,
        (x * pow2(f) + v) / pow2(b + f) == x / pow2(b),
{
    lemma_pow2_pos(b);
    lemma_pow2_pos(f);
    lemma_pow2_adds(b, f);
    let pb = pow2(b) as int;
    let pf = pow2(f) as int;
    let y = x as int * pf + v as int;
    // y / pf == x and y % pf == v
    lemma_fundamental_div_mod_converse(y, pf, x as int, v as int);
    lemma_mul_is_commutative(x as int, pf);
    // y % (pf * pb) == pf * ((y / pf) % pb) + y % pf
    lemma_mod_breakdown(y, pf, pb);
    lemma_mul_is_commutative(pf, pb);
    lemma_mul_is_commutative(pf, x as int % pb);
    // y / (pf * pb) == (y / pf) / pb
    lemma_div_denominator(y, pf, pb);
}

/// `(x * 2^(t-r)) / 2^t == x / 2^r` and `(x * 2^(t-r)) % 2^t == (x % 2^r) * 2^(t-r)`.
proof fn lemma_pad_digit(x: nat, r: nat, t: nat)
    requires
        r <= t,
    ensures
        (x * pow2((t - r) as nat)) / pow2(t) == x / pow2(r),
        (x * pow2((t - r) as nat)) % pow2(t) == (x % pow2(r)) * pow2((t - r) as nat),
{
    let s = (t - r) as nat;
    assert(x * pow2(s) == x * pow2(s) + 0);
    lemma_pow2_pos(s);
    lemma_shift_in_value(x, 0, r, s);
    assert(r + s == t);
}

proof fn lemma_digits_be_len(x: nat, w: nat, m: nat)
    ensures
        digits_be(x, w, m).len() == m,
    decreases m,
{
    if m > 0 {
        let m1 = (m - 1) as nat;
        lemma_pow2_pos(w);
        lemma_digits_be_len(x / pow2(w), w, m1);
        assert(digits_be(x, w, m).drop_last() == digits_be(x / pow2(w), w, m1));
    }
}

proof fn lemma_digits_be_fit(x: nat, w: nat, m: nat)
    requires
        w <= 8,
    ensures
        all_fit(digits_be(x, w, m), w),
    decreases m,
{
    if m > 0 {
        lemma_digits_be_fit(x / pow2(w), w, (m - 1) as nat);
        lemma_pow2_pos(w);
        lemma2_to64();
        let d = digits_be(x, w, m);
        let prev = digits_be(x / pow2(w), w, (m - 1) as nat);
        assert forall|i: int| 0 <= i < d.len() implies (d[i] as nat) < pow2(w) by {
            lemma_digits_be_len(x / pow2(w), w, (m - 1) as nat);
            if i < prev.len() {
                assert(d[i] == prev[i]);
            } else {
                lemma_mod_pos_bound(x as int, pow2(w) as int);
                if w < 8 {
                    lemma_pow2_strictly_increases(w, 8);
                }
            }
        }
    }
}

/// Reading back the digits of `x` gives `x` modulo `2^(w*m)`.
proof fn lemma_val_digits(x: nat, w: nat, m: nat)
    requires
        w <= 8,
    ensures
        val_be(digits_be(x, w, m), w) == x % pow2(w * m),
    decreases m,
{
    lemma_pow2_pos(w);
    if m == 0 {
        assert(w * m == 0) by (nonlinear_arith) requires m == 0;
        lemma2_to64();
        assert(x % 1 == 0);
    } else {
        let m1 = (m - 1) as nat;
        lemma_val_digits(x / pow2(w), w, m1);
        let d = digits_be(x, w, m);
        assert(d.drop_last() == digits_be(x / pow2(w), w, m1));
        lemma2_to64();
        lemma_mod_pos_bound(x as int, pow2(w) as int);
        if w < 8 {
            lemma_pow2_strictly_increases(w, 8);
        }
        assert(d.last() as nat == x % pow2(w));
        // val = ((x / 2^w) % 2^(w*m1)) * 2^w + x % 2^w == x % 2^(w*m1 + w)
        assert(w * m == w * m1 + w) by (nonlinear_arith) requires m == m1 + 1;
        lemma_fundamental_div_mod(x as int, pow2(w) as int);
        lemma_mul_is_commutative(pow2(w) as int, (x / pow2(w)) as int);
        lemma_shift_in_value(x / pow2(w), x % pow2(w), w * m1, w);
        assert((x / pow2(w)) * pow2(w) + x % pow2(w) == x);
    }
}

/// The digits of the value of `data` are `data` again.
proof fn lemma_digits_val(data: Seq<u8>, w: nat)
    requires
        all_fit(data, w),
    ensures
        digits_be(val_be(data, w), w, data.len()) == data,
    decreases data.len(),
{
    if data.len() > 0 {
        let init = data.drop_last();
        assert(all_fit(init, w)) by {
            assert forall|i: int| 0 <= i < init.len() implies (init[i] as nat) < pow2(w) by {
                assert(init[i] == data[i]);
            }
        }
        lemma_digits_val(init, w);
        lemma_pow2_pos(w);
        let v = val_be(data, w);
        let last = data.last() as nat;
        assert(last < pow2(w)) by {
            assert(data.last() == data[data.len() - 1]);
        }
        lemma_fundamental_div_mod_converse(v as int, pow2(w) as int, val_be(init, w) as int, last as int);
        assert(digits_be(v, w, data.len()) == init.push(last as u8));
        assert(init.push(data.last()) == data);
    }
}

proof fn lemma_val_be_take_step(data: Seq<u8>, i: int, w: nat)
    requires
        0 <= i < data.len(),
    ensures
        val_be(data.take(i + 1), w) == val_be(data.take(i), w) * pow2(w) + data[i] as nat,
{
    assert(data.take(i + 1).drop_last() == data.take(i));
}

fn convert_bits(data: &[u8], from_bits: u32, to_bits: u32, pad: bool) -> (r: Option<Vec<u8>>)
    requires
        1 <= from_bits <= 8,
        1 <= to_bits <= 8,
    ensures
        match r {
            Some(v) => convert_bits_spec(data@, from_bits as nat, to_bits as nat, pad) == Some(v@),
            None => convert_bits_spec(data@, from_bits as nat, to_bits as nat, pad) is None,
        },
{
    let ghost f = from_bits as nat;
    let ghost t = to_bits as nat;
    proof {
        lemma2_to64();
        lemma_pow2_strictly_increases(f, 9);
        lemma_pow2_strictly_increases(t, 9);
    }
    let pf: u32 = 1u32 << from_bits;
    proof {
        vstd::bits::lemma_u32_shl_is_mul(1u32, from_bits);
    }
    let mut acc: u32 = 0;
    let mut bits: u32 = 0;
    let mut out: Vec<u8> = Vec::new();
    let n = data.len();
    for i in 0..n
        invariant
            n == data@.len(),
            1 <= f <= 8,
            1 <= t <= 8,
            f == from_bits,
            t == to_bits,
            pf == pow2(f),
            pow2(f) <= 256,
            pow2(t) <= 256,
            all_fit(data@.take(i as int), f),
            bits < to_bits,
            out@.len() * t + bits == i * f,
            acc == val_be(data@.take(i as int), f) % pow2(bits as nat),
            out@ == digits_be(val_be(data@.take(i as int), f) / pow2(bits as nat), t, out@.len()),
    {
        let value = data[i] as u32;
        if value >= pf {
            proof {
                assert(data@.take(n as int)[i as int] == data@[i as int]);
                assert(data@.take(n as int) == data@);
            }
            return None;
        }
        let ghost vi = val_be(data@.take(i as int), f);
        proof {
            lemma_val_be_take_step(data@, i as int, f);
            lemma_shift_in_value(vi, value as nat, bits as nat, f);
            lemma_pow2_pos(bits as nat);
            lemma_pow2_strictly_increases(bits as nat, 8);
            lemma_mod_pos_bound(vi as int, pow2(bits as nat) as int);
            lemma2_to64();
            assert(out@.len() * t + bits + f == (i + 1) * f) by (nonlinear_arith)
                requires out@.len() * t + bits == i * f;
            assert(acc * pf + value < 256 * 256) by (nonlinear_arith)
                requires acc < 256, pf <= 256, value < pf;
            assert(all_fit(data@.take(i + 1), f)) by {
                assert forall|j: int| 0 <= j < i + 1 implies (#[trigger] data@.take(i + 1)[j] as nat) < pow2(f) by {
                    if j < i {
                        assert(data@.take(i + 1)[j] == data@.take(i as int)[j]);
                    }
                }
            }
        }
        acc = acc * pf + value;
        bits = bits + from_bits;
        let ghost v1 = val_be(data@.take(i + 1), f);
        while bits >= to_bits
            invariant
                1 <= f <= 8,
                1 <= t <= 8,
                t == to_bits,
                pow2(t) <= 256,
                bits < to_bits + 8,
                out@.len() * t + bits == (i + 1) * f,
                acc == v1 % pow2(bits as nat),
                out@ == digits_be(v1 / pow2(bits as nat), t, out@.len()),
            decreases bits,
        {
            let nb = bits - to_bits;
            proof {
                lemma_pow2_pos(nb as nat);
                lemma_pow2_strictly_increases(nb as nat, 16);
                lemma2_to64();
                vstd::bits::lemma_u32_shl_is_mul(1u32, nb);
            }
            let pnb: u32 = 1u32 << nb;
            let digit = acc / pnb;
            proof {
                assert(nb + t == bits);
                lemma_middle_digit(v1, nb as nat, t);
                lemma_div_pow2_twice(v1, nb as nat, t);
                lemma_mod_pow2_mod(v1, nb as nat, t);
                lemma_mod_pos_bound((v1 / pow2(nb as nat)) as int, pow2(t) as int);
                assert(digit == (v1 / pow2(nb as nat)) % pow2(t));
                assert(digits_be(v1 / pow2(nb as nat), t, (out@.len() + 1) as nat) == out@.push(digit as u8));
            }
            out.push(digit as u8);
            acc = acc % pnb;
            bits = nb;
            proof {
                assert(out@.len() * t == (out@.len() - 1) * t + t) by (nonlinear_arith)
                    requires out@.len() >= 1;
            }
        }
    }
    assert(data@.take(n as int) == data@);
    let ghost v = val_be(data@, f);
    let ghost l = n * f;
    proof {
        lemma_fundamental_div_mod_converse(l as int, t as int, out@.len() as int, bits as int);
    }
    if pad {
        if bits > 0 {
            let sh = to_bits - bits;
            proof {
                lemma_pow2_pos(sh as nat);
                lemma_pow2_strictly_increases(sh as nat, 8);
                lemma_pad_digit(v, bits as nat, t);
                lemma_mod_pos_bound(v as int, pow2(bits as nat) as int);
                lemma_div_pow2_twice(v, 0, bits as nat);
                lemma_pow2_pos(bits as nat);
                lemma_mod_pos_bound((v * pow2(sh as nat)) as int, pow2(t) as int);
                vstd::bits::lemma_u32_shl_is_mul(1u32, sh);
            }
            let digit = acc * (1u32 << sh);
            proof {
                assert(digits_be(v * pow2(sh as nat), t, (out@.len() + 1) as nat) == out@.push(digit as u8));
            }
            out.push(digit as u8);
        } else {
            proof {
                lemma2_to64();
                assert(v / 1 == v);
            }
        }
    } else {
        if bits >= from_bits || acc != 0 {
            return None;
        }
    }
    Some(out)
}

/// Converting bytes to 5-bit groups (with padding) and back (without) is the identity.
pub proof fn lemma_convert_bits_roundtrip(data: Seq<u8>)
    ensures
        convert_bits_spec(data, 8, 5, true) matches Some(c5)
            && convert_bits_spec(c5, 5, 8, false) == Some(data),
{
    lemma2_to64();
    assert(all_fit(data, 8));
    let v = val_be(data, 8);
    let l = data.len() * 8;
    let k = l / 5;
    let r = l % 5;
    let p: nat = if r == 0 { 0 } else { (5 - r) as nat };
    let m: nat = if r == 0 { k } else { k + 1 };
    let x = v * pow2(p);
    assert(convert_bits_spec(data, 8, 5, true) == Some(digits_be(x, 5, m))) by {
        if r == 0 {
            assert(p == 0);
            assert(pow2(0) == 1);
            assert(x == v * 1);
            assert(x == v);
        }
    }
    let c5 = digits_be(x, 5, m);
    lemma_digits_be_fit(x, 5, m);
    lemma_digits_be_len(x, 5, m);
    lemma_val_digits(x, 5, m);
    // the value fits: x < 2^(5m)
    assert(5 * m == l + p);
    assert(v < pow2(l)) by {
        lemma_val_be_bound(data, 8);
    }
    lemma_pow2_adds(l, p);
    lemma_pow2_pos(p);
    assert(x < pow2(l + p)) by (nonlinear_arith)
        requires v < pow2(l), x == v * pow2(p), pow2(l + p) == pow2(l) * pow2(p), pow2(p) > 0;
    lemma_small_mod(x, pow2(5 * m));
    assert(val_be(c5, 5) == x);
    // second conversion: c5.len() * 5 == l + p, with p < 5
    assert((l + p) / 8 == data.len() && (l + p) % 8 == p) by {
        lemma_fundamental_div_mod_converse((l + p) as int, 8, data.len() as int, p as int);
    }
    lemma_pow2_pos(p);
    lemma_mod_multiples_basic(v as int, pow2(p) as int);
    lemma_mul_is_commutative(v as int, pow2(p) as int);
    assert(x % pow2(p) == 0);
    lemma_div_multiples_vanish(v as int, pow2(p) as int);
    assert(x / pow2(p) == v);
    lemma_digits_val(data, 8);
}

proof fn lemma_val_be_bound(data: Seq<u8>, w: nat)
    requires
        all_fit(data, w),
    ensures
        val_be(data, w) < pow2(data.len() * w),
    decreases data.len(),
{
    lemma_pow2_pos(w);
    if data.len() == 0 {
        lemma2_to64();
    } else {
        let init = data.drop_last();
        assert(all_fit(init, w)) by {
            assert forall|i: int| 0 <= i < init.len() implies (init[i] as nat) < pow2(w) by {
                assert(init[i] == data[i]);
            }
        }
        lemma_val_be_bound(init, w);
        assert((data.last() as nat) < pow2(w)) by {
            assert(data.last() == data[data.len() - 1]);
        }
        let a = val_be(init, w);
        lemma_pow2_adds(init.len() * w, w);
        assert(data.len() * w == init.len() * w + w) by (nonlinear_arith)
            requires data.len() == init.len() + 1;
        assert(a * pow2(w) + (data.last() as nat) < pow2(init.len() * w) * pow2(w)) by (nonlinear_arith)
            requires a < pow2(init.len() * w), (data.last() as nat) < pow2(w);
    }
}


/// The bech32 character (an ASCII code) for a 5-bit value:
/// `qpzry9x8gf2tvdw0s3jn54khce6mua7l`.
pub open spec fn charset_char(v: u8) -> u8 {
    match v {
        0 => 113u8,
        1 => 112u8,
        2 => 122u8,
        3 => 114u8,
        4 => 121u8,
        5 => 57u8,
        6 => 120u8,
        7 => 56u8,
        8 => 103u8,
        9 => 102u8,
        10 => 50u8,
        11 => 116u8,
        12 => 118u8,
        13 => 100u8,
        14 => 119u8,
        15 => 48u8,
        16 => 115u8,
        17 => 51u8,
        18 => 106u8,
        19 => 110u8,
        20 => 53u8,
        21 => 52u8,
        22 => 107u8,
        23 => 104u8,
        24 => 99u8,
        25 => 101u8,
        26 => 54u8,
        27 => 109u8,
        28 => 117u8,
        29 => 97u8,
        30 => 55u8,
        31 => 108u8,
        _ => 0u8,
    }
}

/// The 5-bit value of a bech32 character code, if it is one.
pub open spec fn charset_index(b: u8) -> Option<u8> {
    match b {
        113 => Some(0u8),
        112 => Some(1u8),
        122 => Some(2u8),
        114 => Some(3u8),
        121 => Some(4u8),
        57 => Some(5u8),
        120 => Some(6u8),
        56 => Some(7u8),
        103 => Some(8u8),
        102 => Some(9u8),
        50 => Some(10u8),
        116 => Some(11u8),
        118 => Some(12u8),
        100 => Some(13u8),
        119 => Some(14u8),
        48 => Some(15u8),
        115 => Some(16u8),
        51 => Some(17u8),
        106 => Some(18u8),
        110 => Some(19u8),
        53 => Some(20u8),
        52 => Some(21u8),
        107 => Some(22u8),
        104 => Some(23u8),
        99 => Some(24u8),
        101 => Some(25u8),
        54 => Some(26u8),
        109 => Some(27u8),
        117 => Some(28u8),
        97 => Some(29u8),
        55 => Some(30u8),
        108 => Some(31u8),
        _ => None,
    }
}

fn charset_at(v: u8) -> (r: u8)
    requires
        v < 32,
    ensures
        r == charset_char(v),
{
    match v {
        0 => 113u8,
        1 => 112u8,
        2 => 122u8,
        3 => 114u8,
        4 => 121u8,
        5 => 57u8,
        6 => 120u8,
        7 => 56u8,
        8 => 103u8,
        9 => 102u8,
        10 => 50u8,
        11 => 116u8,
        12 => 118u8,
        13 => 100u8,
        14 => 119u8,
        15 => 48u8,
        16 => 115u8,
        17 => 51u8,
        18 => 106u8,
        19 => 110u8,
        20 => 53u8,
        21 => 52u8,
        22 => 107u8,
        23 => 104u8,
        24 => 99u8,
        25 => 101u8,
        26 => 54u8,
        27 => 109u8,
        28 => 117u8,
        29 => 97u8,
        30 => 55u8,
        31 => 108u8,
        _ => 0u8,
    }
}

fn charset_lookup(b: u8) -> (r: Option<u8>)
    ensures
        r == charset_index(b),
{
    match b {
        113 => Some(0u8),
        112 => Some(1u8),
        122 => Some(2u8),
        114 => Some(3u8),
        121 => Some(4u8),
        57 => Some(5u8),
        120 => Some(6u8),
        56 => Some(7u8),
        103 => Some(8u8),
        102 => Some(9u8),
        50 => Some(10u8),
        116 => Some(11u8),
        118 => Some(12u8),
        100 => Some(13u8),
        119 => Some(14u8),
        48 => Some(15u8),
        115 => Some(16u8),
        51 => Some(17u8),
        106 => Some(18u8),
        110 => Some(19u8),
        53 => Some(20u8),
        52 => Some(21u8),
        107 => Some(22u8),
        104 => Some(23u8),
        99 => Some(24u8),
        101 => Some(25u8),
        54 => Some(26u8),
        109 => Some(27u8),
        117 => Some(28u8),
        97 => Some(29u8),
        55 => Some(30u8),
        108 => Some(31u8),
        _ => None,
    }
}

proof fn lemma_charset(v: u8)
    requires
        v < 32,
    ensures
        charset_index(charset_char(v)) == Some(v),
        charset_char(v) != 49,
        charset_char(v) < 128,
        !(65 <= charset_char(v) <= 90),
{
}

/// The 5-bit groups of `data` (padded), followed by nothing else.
pub open spec fn data_values(data: Seq<u8>) -> Seq<u8> {
    convert_bits_spec(data, 8, 5, true)->0
}

/// The bech32 string for `data` under human-readable prefix `hrp`.
pub open spec fn encode_spec(hrp: Seq<char>, data: Seq<u8>) -> Seq<char> {
    let values = data_values(data);
    let all = values + checksum_spec(encode_utf8(hrp), values);
    hrp + seq!['1'] + all.map_values(|v: u8| (charset_char(v) as u32) as char)
}

/// Encode `data` under human-readable prefix `hrp`.
pub fn encode(hrp: &str, data: &[u8]) -> (r: Result<String>)
    ensures
        r matches Ok(s) && s@ == encode_spec(hrp@, data@),
{
    proof {
        lemma_convert_bits_roundtrip(data@);
    }
    let values = match convert_bits(data, 8, 5, true) {
        Some(v) => v,
        None => {
            return Err(Error::Malformed("bech32 convert_bits"));
        },
    };
    let hrp_bytes = hrp.as_bytes();
    let checksum = create_checksum(hrp_bytes, values.as_slice());
    let mut all = values;
    let ghost v0 = all@;
    for k in 0..6usize
        invariant
            checksum@.len() == 6,
            all@ == v0 + checksum@.take(k as int),
    {
        all.push(checksum[k]);
        assert(checksum@.take(k + 1) == checksum@.take(k as int).push(checksum@[k as int]));
    }
    assert(checksum@.take(6) == checksum@);
    let mut s = String::from_str(hrp);
    push_char(&mut s, '1');
    let ghost s0 = s@;
    let n = all.len();
    proof {
        lemma_digits_be_fit(val_be(data@, 8) * pow2((5 - (data@.len() * 8) % 5) as nat), 5, ((data@.len() * 8) / 5 + 1) as nat);
    }
    for i in 0..n
        invariant
            n == all@.len(),
            all@ == v0 + checksum@,
            v0 == data_values(data@),
            all_fit(v0, 5),
            forall|j: int| 0 <= j < checksum@.len() ==> checksum@[j] < 32,
            s@ == s0 + all@.take(i as int).map_values(|v: u8| (charset_char(v) as u32) as char),
    {
        let v = all[i];
        proof {
            lemma2_to64();
            if i < v0.len() {
                assert(all@[i as int] == v0[i as int]);
            } else {
                assert(all@[i as int] == checksum@[i - v0.len()]);
            }
        }
        let c = charset_at(v);
        proof {
            lemma_charset(v);
        }
        push_char(&mut s, char_from_u32_small(c as u32));
        assert(all@.take(i + 1).map_values(|v: u8| (charset_char(v) as u32) as char) == all@.take(
            i as int,
        ).map_values(|v: u8| (charset_char(v) as u32) as char).push((charset_char(v) as u32) as char));
    }
    assert(all@.take(n as int) == all@);
    Ok(s)
}


/// Index of the last occurrence of `x` in `b`.
pub open spec fn rfind_spec(b: Seq<u8>, x: u8) -> Option<int>
    decreases b.len(),
{
    if b.len() == 0 {
        None
    } else if b.last() == x {
        Some(b.len() - 1)
    } else {
        rfind_spec(b.drop_last(), x)
    }
}

/// Every byte is a bech32 character.
pub open spec fn all_charset(b: Seq<u8>) -> bool {
    forall|i: int| 0 <= i < b.len() ==> charset_index(b[i]) is Some
}

/// The 5-bit values of bech32 characters.
pub open spec fn charset_values(b: Seq<u8>) -> Seq<u8> {
    b.map_values(|c: u8| charset_index(c)->0)
}

/// Decoding of a bech32 string, as (UTF-8 bytes of the lower-cased
/// human-readable part, data bytes), or the error the decoder reports.
pub open spec fn decode_spec(s: Seq<char>) -> core::result::Result<(Seq<u8>, Seq<u8>), Error> {
    let b = encode_utf8(ascii_lower(s));
    match rfind_spec(b, 49u8) {
        None => Err(Error::Malformed("bech32 no separator")),
        Some(pos) => {
            if pos < 1 || pos + 7 > b.len() || b.len() > 90 {
                Err(Error::Malformed("bech32 length"))
            } else {
                let hrp = b.take(pos);
                let dc = b.skip(pos + 1);
                if !all_charset(dc) {
                    Err(Error::Malformed("bech32 bad char"))
                } else {
                    let vals = charset_values(dc);
                    if !checksum_valid(hrp, vals) {
                        Err(Error::Malformed("bech32 checksum"))
                    } else {
                        match convert_bits_spec(vals.take(vals.len() - 6), 5, 8, false) {
                            None => Err(Error::Malformed("bech32 convert_bits")),
                            Some(d) => Ok((hrp, d)),
                        }
                    }
                }
            }
        },
    }
}

/// Decode a bech32 string into `(hrp, data_bytes)`. The string is lower-cased
/// first, so the returned prefix is lower case.
#[verifier::rlimit(50)]
pub fn decode(s: &str) -> (r: Result<(String, Vec<u8>)>)
    ensures
        match r {
            Ok((h, d)) => decode_spec(s@) == Ok::<(Seq<u8>, Seq<u8>), Error>((encode_utf8(h@), d@)),
            Err(e) => decode_spec(s@) == Err::<(Seq<u8>, Seq<u8>), Error>(e),
        },
{
    let lower = to_ascii_lowercase(s);
    let b = lower.as_str().as_bytes();
    let ghost bs = b@;
    assert(bs == encode_utf8(ascii_lower(s@)));
    let len = b.len();
    // find the last separator
    let mut i = len;
    let mut found: Option<usize> = None;
    assert(bs.take(len as int) == bs);
    while i > 0 && found.is_none()
        invariant
            i <= len,
            len == bs.len(),
            b@ == bs,
            found is None ==> rfind_spec(bs, 49u8) == rfind_spec(bs.take(i as int), 49u8),
            found matches Some(p) ==> rfind_spec(bs, 49u8) == Some(p as int) && p < len && bs[p as int] == 49u8,
        decreases i,
    {
        let k = i - 1;
        assert(bs.take(i as int).drop_last() == bs.take(k as int));
        if b[k] == 49u8 {
            found = Some(k);
        }
        i = k;
    }
    let pos = match found {
        Some(p) => p,
        None => {
            assert(bs.take(0) == Seq::<u8>::empty());
            assert(rfind_spec(bs, 49u8) is None);
            assert(decode_spec(s@) == Err::<(Seq<u8>, Seq<u8>), Error>(Error::Malformed("bech32 no separator")));
            return Err(Error::Malformed("bech32 no separator"));
        },
    };
    if len > 90 || pos < 1 || pos + 7 > len {
        return Err(Error::Malformed("bech32 length"));
    }
    let mut data: Vec<u8> = Vec::new();
    let ghost dc = bs.skip(pos + 1);
    let mut j = pos + 1;
    while j < len
        invariant
            pos + 1 <= j <= len,
            len == bs.len(),
            b@ == bs,
            dc == bs.skip(pos + 1),
            bs == encode_utf8(ascii_lower(s@)),
            rfind_spec(bs, 49u8) == Some(pos as int),
            !(pos < 1 || pos + 7 > len || len > 90),
            all_charset(dc.take(j - pos - 1)),
            data@ == charset_values(dc.take(j - pos - 1)),
        decreases len - j,
    {
        let c = b[j];
        assert(dc[j - pos - 1] == c);
        match charset_lookup(c) {
            Some(v) => {
                data.push(v);
                assert(dc.take(j + 1 - pos - 1) == dc.take(j - pos - 1).push(c));
                assert(charset_values(dc.take(j + 1 - pos - 1)) == charset_values(dc.take(j - pos - 1)).push(v));
            },
            None => {
                assert(!all_charset(dc));
                return Err(Error::Malformed("bech32 bad char"));
            },
        }
        j = j + 1;
    }
    assert(dc.take(len - pos - 1) == dc);
    let hrp_slice = &b[0..pos];
    assert(hrp_slice@ == bs.take(pos as int));
    if !verify_checksum(hrp_slice, data.as_slice()) {
        return Err(Error::Malformed("bech32 checksum"));
    }
    let keep = data.len() - 6;
    let without = &data.as_slice()[0..keep];
    let converted = match convert_bits(without, 5, 8, false) {
        Some(v) => v,
        None => {
            return Err(Error::Malformed("bech32 convert_bits"));
        },
    };
    let mut hrp_bytes: Vec<u8> = Vec::new();
    for k in 0..pos
        invariant
            pos <= len,
            len == bs.len(),
            b@ == bs,
            hrp_bytes@ == bs.take(k as int),
    {
        hrp_bytes.push(b[k]);
        assert(bs.take(k + 1) == bs.take(k as int).push(bs[k as int]));
    }
    proof {
        encode_utf8_valid_utf8(ascii_lower(s@));
        assert(!is_continuation_byte(49u8)) by (bit_vector);
        is_char_boundary_iff_not_is_continuation_byte(bs, pos as int);
        valid_utf8_split(bs, pos as int);
        assert(bs.subrange(0, pos as int) == bs.take(pos as int));
        decode_utf8_encode_utf8(bs.take(pos as int));
    }
    match string_from_utf8(hrp_bytes) {
        Some(h) => Ok((h, converted)),
        None => Err(Error::Utf8),
    }
}

/// Encode a 32-byte x-only public key as `npub`.
pub fn encode_npub(public_key: &[u8; 32]) -> (r: Result<String>)
    ensures
        r matches Ok(s) && s@ == encode_spec("npub"@, public_key@),
{
    encode("npub", public_key.as_slice())
}

/// Encode a 32-byte private key as `nsec`.
pub fn encode_nsec(private_key: &[u8; 32]) -> (r: Result<String>)
    ensures
        r matches Ok(s) && s@ == encode_spec("nsec"@, private_key@),
{
    encode("nsec", private_key.as_slice())
}


/// Decoding of a 32-byte key under the given prefix: the decoded prefix must be
/// `prefix`, and exactly 32 bytes must come out.
pub open spec fn decode_key_spec(
    s: Seq<char>,
    prefix: Seq<char>,
    wrong_prefix: Error,
    wrong_len: Error,
) -> core::result::Result<Seq<u8>, Error> {
    match decode_spec(s) {
        Err(e) => Err(e),
        Ok((h, d)) => {
            if h != encode_utf8(prefix) {
                Err(wrong_prefix)
            } else if d.len() != 32 {
                Err(wrong_len)
            } else {
                Ok(d)
            }
        },
    }
}

fn decode_key(s: &str, prefix: &str, wrong_prefix: Error, wrong_len: Error) -> (r: Result<[u8; 32]>)
    ensures
        match r {
            Ok(k) => decode_key_spec(s@, prefix@, wrong_prefix, wrong_len) == Ok::<Seq<u8>, Error>(k@),
            Err(e) => decode_key_spec(s@, prefix@, wrong_prefix, wrong_len) == Err::<Seq<u8>, Error>(e),
        },
{
    let (hrp, data) = match decode(s) {
        Ok(p) => p,
        Err(e) => {
            return Err(e);
        },
    };
    if !str_eq(hrp.as_str(), prefix) {
        proof {
            if encode_utf8(hrp@) == encode_utf8(prefix@) {
                lemma_encode_utf8_injective(hrp@, prefix@);
            }
        }
        return Err(wrong_prefix);
    }
    if data.len() != 32 {
        return Err(wrong_len);
    }
    Ok(to_array32(data.as_slice()))
}

/// Decode an `npub` into 32 bytes.
pub fn decode_npub(npub: &str) -> (r: Result<[u8; 32]>)
    ensures
        match r {
            Ok(k) => decode_key_spec(npub@, "npub"@, Error::Malformed("expected npub"),
                Error::InvalidLength("npub != 32 bytes")) == Ok::<Seq<u8>, Error>(k@),
            Err(e) => decode_key_spec(npub@, "npub"@, Error::Malformed("expected npub"),
                Error::InvalidLength("npub != 32 bytes")) == Err::<Seq<u8>, Error>(e),
        },
{
    decode_key(npub, "npub", Error::Malformed("expected npub"), Error::InvalidLength("npub != 32 bytes"))
}

/// Decode an `nsec` into 32 bytes.
pub fn decode_nsec(nsec: &str) -> (r: Result<[u8; 32]>)
    ensures
        match r {
            Ok(k) => decode_key_spec(nsec@, "nsec"@, Error::Malformed("expected nsec"),
                Error::InvalidLength("nsec != 32 bytes")) == Ok::<Seq<u8>, Error>(k@),
            Err(e) => decode_key_spec(nsec@, "nsec"@, Error::Malformed("expected nsec"),
                Error::InvalidLength("nsec != 32 bytes")) == Err::<Seq<u8>, Error>(e),
        },
{
    decode_key(nsec, "nsec", Error::Malformed("expected nsec"), Error::InvalidLength("nsec != 32 bytes"))
}

proof fn lemma_rfind_after(x: Seq<u8>, y: Seq<u8>)
    requires
        forall|i: int| 0 <= i < y.len() ==> y[i] != 49u8,
    ensures
        rfind_spec(x + seq![49u8] + y, 49u8) == Some(x.len() as int),
    decreases y.len(),
{
    let z = x + seq![49u8] + y;
    if y.len() == 0 {
        assert(z.last() == 49u8);
    } else {
        assert(z.last() == y.last());
        assert(z.drop_last() == x + seq![49u8] + y.drop_last());
        lemma_rfind_after(x, y.drop_last());
    }
}

/// Decoding what `encode` produced gives back the (lower-case) prefix and the
/// data, whenever the encoding is no longer than the 90 bytes the decoder accepts.
#[verifier::rlimit(50)]
pub proof fn lemma_decode_encode(hrp: Seq<char>, data: Seq<u8>)
    requires
        hrp.len() >= 1,
        ascii_lower(hrp) == hrp,
        encode_utf8(encode_spec(hrp, data)).len() <= 90,
    ensures
        decode_spec(encode_spec(hrp, data)) == Ok::<(Seq<u8>, Seq<u8>), Error>((encode_utf8(hrp), data)),
{
    lemma2_to64();
    lemma_convert_bits_roundtrip(data);
    let values = data_values(data);
    let hb = encode_utf8(hrp);
    let cks = checksum_spec(hb, values);
    let all = values + cks;
    let cs = all.map_values(|v: u8| (charset_char(v) as u32) as char);
    let s = encode_spec(hrp, data);
    assert(s == hrp + seq!['1'] + cs);
    // the digits are all 5-bit values
    let k8 = data.len() * 8;
    if k8 % 5 == 0 {
        lemma_digits_be_fit(val_be(data, 8), 5, k8 / 5);
        lemma_digits_be_len(val_be(data, 8), 5, k8 / 5);
    } else {
        lemma_digits_be_fit(val_be(data, 8) * pow2((5 - k8 % 5) as nat), 5, k8 / 5 + 1);
        lemma_digits_be_len(val_be(data, 8) * pow2((5 - k8 % 5) as nat), 5, k8 / 5 + 1);
    }
    assert(all_fit(values, 5));
    let m = polymod_spec(hrp_expand_spec(hb) + values + seq![0u8, 0u8, 0u8, 0u8, 0u8, 0u8]) ^ 1u32;
    assert(group5(m, 25) < 32 && group5(m, 20) < 32 && group5(m, 15) < 32 && group5(m, 10) < 32
        && group5(m, 5) < 32 && group5(m, 0) < 32) by (bit_vector);
    assert forall|i: int| 0 <= i < all.len() implies #[trigger] all[i] < 32 by {
        if i < values.len() {
            assert(all[i] == values[i]);
        } else {
            assert(all[i] == cks[i - values.len()]);
        }
    }
    assert forall|i: int| 0 <= i < cs.len() implies (#[trigger] cs[i] as u32) < 128 && cs[i] as u32 == charset_char(all[i]) as u32 && cs[i] != '1' && !('A' <= cs[i] && cs[i] <= 'Z') by {
        lemma_charset(all[i]);
    }
    // lower-casing leaves the string unchanged
    assert(ascii_lower(s) == s) by {
        assert forall|i: int| 0 <= i < s.len() implies #[trigger] ascii_lower_char(s[i]) == s[i] by {
            if i < hrp.len() {
                assert(s[i] == hrp[i]);
                assert(ascii_lower(hrp)[i] == ascii_lower_char(hrp[i]));
            } else if i > hrp.len() {
                assert(s[i] == cs[i - hrp.len() - 1]);
            }
        }
        assert(ascii_lower(s) =~= s);
    }
    // bytes of the string
    lemma_encode_utf8_concat(hrp + seq!['1'], cs);
    lemma_encode_utf8_concat(hrp, seq!['1']);
    crate::text::lemma_encode_ascii_char('1');
    lemma_encode_ascii(cs);
    let cb = cs.map_values(|c: char| c as u8);
    assert(cb == all.map_values(|v: u8| charset_char(v))) by {
        assert forall|i: int| 0 <= i < cb.len() implies cb[i] == charset_char(all[i]) by {
            lemma_charset(all[i]);
        }
        assert(cb =~= all.map_values(|v: u8| charset_char(v)));
    }
    let b = encode_utf8(ascii_lower(s));
    assert(b == hb + seq![49u8] + cb);
    assert forall|i: int| 0 <= i < cb.len() implies #[trigger] cb[i] != 49u8 by {
        lemma_charset(all[i]);
    }
    lemma_rfind_after(hb, cb);
    let pos = hb.len() as int;
    assert(hb.len() >= 1) by {
        assert(hrp.drop_first() + Seq::<char>::empty() == hrp.drop_first());
    }
    assert(b.take(pos) == hb);
    assert(b.skip(pos + 1) == cb);
    assert(all_charset(cb)) by {
        assert forall|i: int| 0 <= i < cb.len() implies charset_index(cb[i]) is Some by {
            lemma_charset(all[i]);
        }
    }
    assert(charset_values(cb) == all) by {
        assert forall|i: int| 0 <= i < all.len() implies charset_values(cb)[i] == all[i] by {
            lemma_charset(all[i]);
        }
        assert(charset_values(cb) =~= all);
    }
    lemma_checksum_spec_valid(hb, values);
    assert(all.take(all.len() - 6) == values);
}

/// `decode_npub` gives back every key that `encode_npub` encoded.
pub proof fn lemma_npub_roundtrip(key: Seq<u8>)
    requires
        key.len() == 32,
    ensures
        decode_key_spec(encode_spec("npub"@, key), "npub"@, Error::Malformed("expected npub"),
            Error::InvalidLength("npub != 32 bytes")) == Ok::<Seq<u8>, Error>(key),
{
    reveal_strlit("npub");
    lemma_key_roundtrip("npub"@, key);
}

/// `decode_nsec` gives back every key that `encode_nsec` encoded.
pub proof fn lemma_nsec_roundtrip(key: Seq<u8>)
    requires
        key.len() == 32,
    ensures
        decode_key_spec(encode_spec("nsec"@, key), "nsec"@, Error::Malformed("expected nsec"),
            Error::InvalidLength("nsec != 32 bytes")) == Ok::<Seq<u8>, Error>(key),
{
    reveal_strlit("nsec");
    lemma_key_roundtrip("nsec"@, key);
}

proof fn lemma_key_roundtrip(prefix: Seq<char>, key: Seq<u8>)
    requires
        key.len() <= 49,
        prefix.len() == 4,
        forall|i: int| 0 <= i < 4 ==> 'a' <= #[trigger] prefix[i] && prefix[i] <= 'z',
    ensures
        decode_spec(encode_spec(prefix, key)) == Ok::<(Seq<u8>, Seq<u8>), Error>((encode_utf8(prefix), key)),
{
    assert(ascii_lower(prefix) =~= prefix);
    lemma_encode_ascii(prefix);
    lemma2_to64();
    lemma_convert_bits_roundtrip(key);
    let v = val_be(key, 8);
    let k8 = key.len() * 8;
    if k8 % 5 == 0 {
        lemma_digits_be_len(v, 5, k8 / 5);
    } else {
        lemma_digits_be_len(v * pow2((5 - k8 % 5) as nat), 5, k8 / 5 + 1);
    }
    let values = data_values(key);
    assert(values.len() <= 79);
    let all = values + checksum_spec(encode_utf8(prefix), values);
    let cs = all.map_values(|v: u8| (charset_char(v) as u32) as char);
    let s = encode_spec(prefix, key);
    assert forall|i: int| 0 <= i < cs.len() implies (#[trigger] cs[i] as u32) < 128 by {
        lemma_charset_bound(all[i]);
    }
    assert forall|i: int| 0 <= i < s.len() implies (#[trigger] s[i] as u32) < 128 by {
        if i < 4 {
        } else if i > 4 {
            assert(s[i] == cs[i - 5]);
        }
    }
    lemma_encode_ascii(s);
    lemma_decode_encode(prefix, key);
}

/// For an ASCII prefix, the encoding has `hrp.len() + 1 + ceil(8 * data.len() / 5) + 6` bytes.
pub proof fn lemma_encode_len(hrp: Seq<char>, data: Seq<u8>)
    requires
        forall|i: int| 0 <= i < hrp.len() ==> (#[trigger] hrp[i] as u32) < 128,
    ensures
        encode_utf8(encode_spec(hrp, data)).len() == hrp.len() + 7 + (8 * data.len() + 4) / 5,
{
    lemma2_to64();
    lemma_convert_bits_roundtrip(data);
    let v = val_be(data, 8);
    let k8 = data.len() * 8;
    if k8 % 5 == 0 {
        lemma_digits_be_len(v, 5, k8 / 5);
    } else {
        lemma_digits_be_len(v * pow2((5 - k8 % 5) as nat), 5, k8 / 5 + 1);
    }
    let values = data_values(data);
    assert(values.len() == (k8 + 4) / 5);
    let all = values + checksum_spec(encode_utf8(hrp), values);
    let cs = all.map_values(|v: u8| (charset_char(v) as u32) as char);
    let s = encode_spec(hrp, data);
    let h = hrp.len() as int;
    assert forall|i: int| 0 <= i < cs.len() implies (#[trigger] cs[i] as u32) < 128 by {
        lemma_charset_bound(all[i]);
    }
    assert forall|i: int| 0 <= i < s.len() implies (#[trigger] s[i] as u32) < 128 by {
        if i < h {
            assert(s[i] == hrp[i]);
        } else if i > h {
            assert(s[i] == cs[i - h - 1]);
        }
    }
    lemma_encode_ascii(s);
}

/// Encoding then decoding gives back the prefix and the data, also from the
/// upper-case form, for a non-empty lower-case ASCII prefix whenever
/// `hrp.len() + 1 + ceil(8 * data.len() / 5) + 6 <= 90`.
pub proof fn lemma_decode_encode_by_length(hrp: Seq<char>, data: Seq<u8>)
    requires
        hrp.len() >= 1,
        forall|i: int| 0 <= i < hrp.len() ==> (#[trigger] hrp[i] as u32) < 128,
        ascii_lower(hrp) == hrp,
        hrp.len() + 7 + (8 * data.len() + 4) / 5 <= 90,
    ensures
        decode_spec(encode_spec(hrp, data)) == Ok::<(Seq<u8>, Seq<u8>), Error>((encode_utf8(hrp), data)),
        decode_spec(ascii_upper(encode_spec(hrp, data))) == Ok::<(Seq<u8>, Seq<u8>), Error>((encode_utf8(hrp), data)),
        encode_utf8(hrp) == hrp.map_values(|c: char| c as u8),
{
    lemma_encode_len(hrp, data);
    lemma_decode_encode(hrp, data);
    lemma_decode_encode_upper(hrp, data);
    lemma_encode_ascii(hrp);
}

/// Decoding is blind to ASCII case: the upper-case form of an encoding decodes
/// to the same (lower-case) prefix and data as the encoding itself.
pub proof fn lemma_decode_encode_upper(hrp: Seq<char>, data: Seq<u8>)
    requires
        hrp.len() >= 1,
        ascii_lower(hrp) == hrp,
        encode_utf8(encode_spec(hrp, data)).len() <= 90,
    ensures
        decode_spec(ascii_upper(encode_spec(hrp, data))) == Ok::<(Seq<u8>, Seq<u8>), Error>(
            (encode_utf8(hrp), data),
        ),
{
    lemma_decode_encode(hrp, data);
    lemma_ascii_lower_upper(encode_spec(hrp, data));
}

/// An `nsec` string is refused by `decode_npub` as the wrong prefix.
pub proof fn lemma_npub_refuses_nsec(key: Seq<u8>)
    requires
        key.len() == 32,
    ensures
        decode_key_spec(encode_spec("nsec"@, key), "npub"@, Error::Malformed("expected npub"),
            Error::InvalidLength("npub != 32 bytes")) == Err::<Seq<u8>, Error>(Error::Malformed("expected npub")),
{
    reveal_strlit("npub");
    reveal_strlit("nsec");
    lemma_key_roundtrip("nsec"@, key);
    if encode_utf8("nsec"@) == encode_utf8("npub"@) {
        lemma_encode_utf8_injective("nsec"@, "npub"@);
        assert("nsec"@[1] != "npub"@[1]);
    }
}

/// An `npub` string is refused by `decode_nsec` as the wrong prefix.
pub proof fn lemma_nsec_refuses_npub(key: Seq<u8>)
    requires
        key.len() == 32,
    ensures
        decode_key_spec(encode_spec("npub"@, key), "nsec"@, Error::Malformed("expected nsec"),
            Error::InvalidLength("nsec != 32 bytes")) == Err::<Seq<u8>, Error>(Error::Malformed("expected nsec")),
{
    reveal_strlit("npub");
    reveal_strlit("nsec");
    lemma_key_roundtrip("npub"@, key);
    if encode_utf8("nsec"@) == encode_utf8("npub"@) {
        lemma_encode_utf8_injective("nsec"@, "npub"@);
        assert("nsec"@[1] != "npub"@[1]);
    }
}

/// An `npub` string that carries other than 32 bytes (and is short enough to
/// decode at all) is refused by `decode_npub` for its length.
pub proof fn lemma_npub_wrong_length(data: Seq<u8>)
    requires
        data.len() != 32,
        data.len() <= 49,
    ensures
        decode_key_spec(encode_spec("npub"@, data), "npub"@, Error::Malformed("expected npub"),
            Error::InvalidLength("npub != 32 bytes")) == Err::<Seq<u8>, Error>(
            Error::InvalidLength("npub != 32 bytes"),
        ),
{
    reveal_strlit("npub");
    lemma_key_roundtrip("npub"@, data);
}

/// An `nsec` string that carries other than 32 bytes (and is short enough to
/// decode at all) is refused by `decode_nsec` for its length.
pub proof fn lemma_nsec_wrong_length(data: Seq<u8>)
    requires
        data.len() != 32,
        data.len() <= 49,
    ensures
        decode_key_spec(encode_spec("nsec"@, data), "nsec"@, Error::Malformed("expected nsec"),
            Error::InvalidLength("nsec != 32 bytes")) == Err::<Seq<u8>, Error>(
            Error::InvalidLength("nsec != 32 bytes"),
        ),
{
    reveal_strlit("nsec");
    lemma_key_roundtrip("nsec"@, data);
}

proof fn lemma_charset_bound(v: u8)
    ensures
        charset_char(v) < 128,
{
}

} // verus!
