//! Compact JSON text, as the protocol serializes it: string literals are quoted
//! and escaped by `serde_json`; arrays, objects and integers are framed here.
use vstd::prelude::*;

use crate::text::{char_from_u32_small, push_char, push_str};

verus! {

/// The JSON string literal for `s`, as `serde_json` writes it (quoted, with
/// `"`, `\` and control characters escaped).
pub uninterp spec fn json_quoted(s: Seq<char>) -> Seq<char>;

/// `serde_json::to_string` of a string slice.
/// Trusted: the result is the JSON literal `json_quoted(s)`; serializing a
/// `&str` has no failure case.
#[verifier::external_body]
fn quote(s: &str) -> (r: String)
    ensures
        r@ == json_quoted(s@),
{
    match serde_json::to_string(s) {
        Ok(t) => t,
        Err(_) => String::new(),
    }
}

/// Append the JSON literal for `s`.
pub fn push_quoted(out: &mut String, s: &str)
    ensures
        final(out)@ == old(out)@ + json_quoted(s@),
{
    let q = quote(s);
    push_str(out, q.as_str());
}

/// `items` joined with commas.
pub open spec fn join_commas(items: Seq<Seq<char>>) -> Seq<char>
    decreases items.len(),
{
    if items.len() == 0 {
        seq![]
    } else if items.len() == 1 {
        items[0]
    } else {
        join_commas(items.drop_last()) + seq![','] + items.last()
    }
}

/// A JSON array of already-serialized elements.
pub open spec fn json_array(items: Seq<Seq<char>>) -> Seq<char> {
    seq!['['] + join_commas(items) + seq![']']
}

/// A JSON array of strings.
pub open spec fn json_string_array(strs: Seq<Seq<char>>) -> Seq<char> {
    json_array(strs.map_values(|s: Seq<char>| json_quoted(s)))
}

/// A JSON array of arrays of strings (the shape of event tags).
pub open spec fn json_tags(tags: Seq<Seq<Seq<char>>>) -> Seq<char> {
    json_array(tags.map_values(|t: Seq<Seq<char>>| json_string_array(t)))
}

/// Append `[ "a", "b", ... ]` (no spaces) for `strs`.
pub fn push_string_array(out: &mut String, strs: &[String])
    ensures
        final(out)@ == old(out)@ + json_string_array(strs_view(strs@)),
{
    let ghost o0 = out@;
    let ghost items = strs_view(strs@).map_values(|s: Seq<char>| json_quoted(s));
    push_char(out, '[');
    let n = strs.len();
    for i in 0..n
        invariant
            n == strs@.len(),
            items == strs_view(strs@).map_values(|s: Seq<char>| json_quoted(s)),
            out@ == o0 + seq!['['] + join_commas(items.take(i as int)),
    {
        let ghost before = out@;
        if i > 0 {
            push_char(out, ',');
        }
        push_quoted(out, strs[i].as_str());
        proof {
            let t = items.take(i + 1);
            assert(t.drop_last() == items.take(i as int));
            assert(t.last() == json_quoted(strs@[i as int]@));
            if i == 0 {
                assert(t.len() == 1);
            }
        }
    }
    assert(items.take(n as int) == items);
    push_char(out, ']');
}

/// Append the JSON form of a list of tags.
pub fn push_tags(out: &mut String, tags: &[Vec<String>])
    ensures
        final(out)@ == old(out)@ + json_tags(tags_view(tags@)),
{
    let ghost o0 = out@;
    let ghost items = tags_view(tags@).map_values(|t: Seq<Seq<char>>| json_string_array(t));
    push_char(out, '[');
    let n = tags.len();
    for i in 0..n
        invariant
            n == tags@.len(),
            items == tags_view(tags@).map_values(|t: Seq<Seq<char>>| json_string_array(t)),
            out@ == o0 + seq!['['] + join_commas(items.take(i as int)),
    {
        if i > 0 {
            push_char(out, ',');
        }
        push_string_array(out, tags[i].as_slice());
        proof {
            let t = items.take(i + 1);
            assert(t.drop_last() == items.take(i as int));
            assert(t.last() == json_string_array(strs_view(tags@[i as int]@)));
            if i == 0 {
                assert(t.len() == 1);
            }
        }
    }
    assert(items.take(n as int) == items);
    push_char(out, ']');
}

/// The character views of a list of strings.
pub open spec fn strs_view(v: Seq<String>) -> Seq<Seq<char>> {
    v.map_values(|s: String| s@)
}

/// The character views of a list of tags.
pub open spec fn tags_view(tags: Seq<Vec<String>>) -> Seq<Seq<Seq<char>>> {
    tags.map_values(|t: Vec<String>| strs_view(t@))
}

/// The decimal digit character for a value below 10.
pub open spec fn decimal_digit(d: nat) -> char {
    ((48 + d) as u32) as char
}

/// Decimal digits of a natural number (no leading zeros; `0` is `"0"`).
pub open spec fn decimal_nat(n: nat) -> Seq<char>
    decreases n,
{
    if n < 10 {
        seq![decimal_digit(n)]
    } else {
        decimal_nat(n / 10).push(decimal_digit(n % 10))
    }
}

/// Decimal text of an integer, with a leading `-` when negative.
pub open spec fn decimal_int(n: int) -> Seq<char> {
    if n < 0 {
        seq!['-'] + decimal_nat((-n) as nat)
    } else {
        decimal_nat(n as nat)
    }
}

/// Append the decimal digits of `n`.
pub fn push_decimal_u128(out: &mut String, n: u128)
    ensures
        final(out)@ == old(out)@ + decimal_nat(n as nat),
    decreases n,
{
    if n >= 10 {
        push_decimal_u128(out, n / 10);
    }
    let d = (n % 10) as u32;
    push_char(out, char_from_u32_small(48 + d));
    proof {
        if n < 10 {
            assert(n % 10 == n);
        }
    }
}

/// Append the decimal text of `n` (with `-` when negative).
pub fn push_decimal_i64(out: &mut String, n: i64)
    ensures
        final(out)@ == old(out)@ + decimal_int(n as int),
{
    if n < 0 {
        push_char(out, '-');
        let m: u128 = (0i128 - n as i128) as u128;
        let ghost o1 = out@;
        push_decimal_u128(out, m);
        assert(out@ == o1 + decimal_nat(m as nat));
    } else {
        push_decimal_u128(out, n as u128);
    }
}

/// Decimal text of an unsigned number.
pub fn decimal_string(n: u128) -> (s: String)
    ensures
        s@ == decimal_nat(n as nat),
{
    let mut s = String::new();
    push_decimal_u128(&mut s, n);
    s
}

/// `"key":` for a member key.
pub open spec fn member_key(key: Seq<char>) -> Seq<char> {
    seq!['"'] + key + seq!['"', ':']
}

/// Append `"key":`.
pub fn push_key(out: &mut String, key: &str)
    ensures
        final(out)@ == old(out)@ + member_key(key@),
{
    push_char(out, '"');
    push_str(out, key);
    push_char(out, '"');
    push_char(out, ':');
}

/// Append one member text to a member list.
pub fn push_member(members: &mut Vec<String>, m: String)
    ensures
        strs_view(final(members)@) == strs_view(old(members)@).push(m@),
{
    let ghost m0 = members@;
    members.push(m);
    assert(strs_view(members@) =~= strs_view(m0).push(m@));
}

/// Append `items` joined with commas.
pub fn push_joined(out: &mut String, items: &[String])
    ensures
        final(out)@ == old(out)@ + join_commas(strs_view(items@)),
{
    let ghost o0 = out@;
    let ghost vs = strs_view(items@);
    let n = items.len();
    for i in 0..n
        invariant
            n == items@.len(),
            vs == strs_view(items@),
            out@ == o0 + join_commas(vs.take(i as int)),
    {
        if i > 0 {
            push_char(out, ',');
        }
        push_str(out, items[i].as_str());
        proof {
            let t = vs.take(i + 1);
            assert(t.drop_last() == vs.take(i as int));
            if i == 0 {
                assert(t.len() == 1);
                assert(vs.take(0) == Seq::<Seq<char>>::empty());
            }
        }
    }
    assert(vs.take(n as int) == vs);
}

/// A compact JSON object with the given member texts, in order.
pub open spec fn json_object(members: Seq<Seq<char>>) -> Seq<char> {
    seq!['{'] + join_commas(members) + seq!['}']
}

/// The JSON object text of the given member texts.
pub fn object_of(members: &[String]) -> (s: String)
    ensures
        s@ == json_object(strs_view(members@)),
{
    let mut s = String::new();
    push_char(&mut s, '{');
    push_joined(&mut s, members);
    push_char(&mut s, '}');
    s
}

/// The member `"key":"value"` with `value` as a JSON string literal.
pub fn string_member_text(key: &str, value: &str) -> (m: String)
    ensures
        m@ == member_key(key@) + json_quoted(value@),
{
    let mut m = String::new();
    push_key(&mut m, key);
    push_quoted(&mut m, value);
    m
}

/// A member key that is written without escaping: no `"`, `\` or control character.
pub open spec fn plain_key(k: Seq<char>) -> bool {
    forall|i: int| 0 <= i < k.len() ==> #[trigger] k[i] != '"' && k[i] != '\\' && (k[i] as u32) >= 0x20
}

/// A value text that the library writes: a string literal, an integer in the
/// range of `i64` or `u64`, or an array of arrays of strings.
pub open spec fn writer_value(v: Seq<char>) -> bool {
    ||| exists|s: Seq<char>| v == #[trigger] json_quoted(s)
    ||| exists|i: int| i64::MIN <= i <= u64::MAX && v == #[trigger] decimal_int(i)
    ||| exists|t: Seq<Seq<Seq<char>>>| v == #[trigger] json_tags(t)
}

/// Members `(key, value text)` as the library writes them: plain, distinct
/// keys and written values.
pub open spec fn writer_members(ms: Seq<(Seq<char>, Seq<char>)>) -> bool {
    &&& forall|i: int| 0 <= i < ms.len() ==> plain_key(#[trigger] ms[i].0) && writer_value(ms[i].1)
    &&& forall|i: int, j: int| 0 <= i < j < ms.len() ==> #[trigger] ms[i].0 != #[trigger] ms[j].0
}

/// The member texts `"key":value` of `(key, value text)` pairs.
pub open spec fn member_texts(ms: Seq<(Seq<char>, Seq<char>)>) -> Seq<Seq<char>> {
    ms.map_values(|m: (Seq<char>, Seq<char>)| member_key(m.0) + m.1)
}

/// `(key, value)` is one of the members.
pub open spec fn has_member(ms: Seq<(Seq<char>, Seq<char>)>, key: Seq<char>, value: Seq<char>) -> bool {
    exists|i: int| 0 <= i < ms.len() && ms[i] == (key, value)
}

/// The object the library writes from these members.
pub open spec fn written_object(ms: Seq<(Seq<char>, Seq<char>)>) -> Seq<char> {
    json_object(member_texts(ms))
}

/// The string member `key` of the JSON object in `text`: absent when `text`
/// is not JSON, not an object, has no member `key`, or that member is not a
/// string.
pub uninterp spec fn json_string_member(text: Seq<char>, key: Seq<char>) -> Option<Seq<char>>;

/// `serde_json::from_str::<serde_json::Value>(text)`, then `Value::get(key)`
/// and `Value::as_str` on the member.
/// Trusted: the result is `json_string_member(text, key)`; on an object the
/// library writes (`written_object` with `writer_members`), a member `key`
/// holding the literal `json_quoted(v)` reads back as `v`.
#[verifier::external_body]
pub(crate) fn string_member(text: &str, key: &str) -> (r: Option<String>)
    ensures
        match r {
            Some(s) => json_string_member(text@, key@) == Some(s@),
            None => json_string_member(text@, key@) is None,
        },
        forall|ms: Seq<(Seq<char>, Seq<char>)>, v: Seq<char>|
            writer_members(ms) && text@ == written_object(ms) && #[trigger] has_member(ms, key@, json_quoted(v))
            ==> r is Some && r->0@ == v,
{
    match serde_json::from_str::<serde_json::Value>(text) {
        Ok(v) => v.get(key).and_then(|m| m.as_str()).map(String::from),
        Err(_) => None,
    }
}

/// The integer member `key` of the JSON object in `text`, when it fits an `i64`.
pub uninterp spec fn json_i64_member(text: Seq<char>, key: Seq<char>) -> Option<i64>;

/// The integer member `key` of the JSON object in `text`, when it fits a `u64`.
pub uninterp spec fn json_u64_member(text: Seq<char>, key: Seq<char>) -> Option<u64>;

/// The member `key` of the JSON object in `text`, when it is an array of
/// arrays of strings.
pub uninterp spec fn json_tags_member(text: Seq<char>, key: Seq<char>) -> Option<Seq<Seq<Seq<char>>>>;

/// `serde_json::from_str::<serde_json::Value>(text)`, then `Value::get(key)`
/// and `Value::as_i64` on the member.
/// Trusted: the result is `json_i64_member(text, key)`; on an object the
/// library writes, a member `key` holding the decimal text of an `i64` reads
/// back as that number.
#[verifier::external_body]
pub(crate) fn i64_member(text: &str, key: &str) -> (r: Option<i64>)
    ensures
        r == json_i64_member(text@, key@),
        forall|ms: Seq<(Seq<char>, Seq<char>)>, n: int|
            writer_members(ms) && text@ == written_object(ms) && #[trigger] has_member(ms, key@, decimal_int(n))
            && i64::MIN <= n <= i64::MAX ==> r == Some(n as i64),
{
    match serde_json::from_str::<serde_json::Value>(text) {
        Ok(v) => v.get(key).and_then(|m| m.as_i64()),
        Err(_) => None,
    }
}

/// `serde_json::from_str::<serde_json::Value>(text)`, then `Value::get(key)`
/// and `Value::as_u64` on the member.
/// Trusted: the result is `json_u64_member(text, key)`; on an object the
/// library writes, a member `key` holding the decimal text of a `u64` reads
/// back as that number.
#[verifier::external_body]
pub(crate) fn u64_member(text: &str, key: &str) -> (r: Option<u64>)
    ensures
        r == json_u64_member(text@, key@),
        forall|ms: Seq<(Seq<char>, Seq<char>)>, n: int|
            writer_members(ms) && text@ == written_object(ms) && #[trigger] has_member(ms, key@, decimal_int(n))
            && 0 <= n <= u64::MAX ==> r == Some(n as u64),
{
    match serde_json::from_str::<serde_json::Value>(text) {
        Ok(v) => v.get(key).and_then(|m| m.as_u64()),
        Err(_) => None,
    }
}

/// `serde_json::from_str::<serde_json::Value>(text)`, then `Value::get(key)`
/// and `serde_json::from_value::<Vec<Vec<String>>>` on the member.
/// Trusted: the result is `json_tags_member(text, key)`; on an object the
/// library writes, a member `key` holding `json_tags(t)` reads back as `t`.
#[verifier::external_body]
pub(crate) fn tags_member(text: &str, key: &str) -> (r: Option<Vec<Vec<String>>>)
    ensures
        match r {
            Some(t) => json_tags_member(text@, key@) == Some(tags_view(t@)),
            None => json_tags_member(text@, key@) is None,
        },
        forall|ms: Seq<(Seq<char>, Seq<char>)>, t: Seq<Seq<Seq<char>>>|
            writer_members(ms) && text@ == written_object(ms) && #[trigger] has_member(ms, key@, json_tags(t))
            ==> r is Some && tags_view(r->0@) == t,
{
    match serde_json::from_str::<serde_json::Value>(text) {
        Ok(v) => v.get(key).and_then(|m| serde_json::from_value::<Vec<Vec<String>>>(m.clone()).ok()),
        Err(_) => None,
    }
}

/// Whether `text` is one JSON value.
pub uninterp spec fn json_parses(text: Seq<char>) -> bool;

/// `serde_json::from_str::<serde_json::Value>(text)` succeeds.
/// Trusted: the result is `json_parses(text)`.
#[verifier::external_body]
pub(crate) fn parses_as_json(text: &str) -> (r: bool)
    ensures
        r == json_parses(text@),
{
    serde_json::from_str::<serde_json::Value>(text).is_ok()
}

/// Whether `text` is a JSON array.
pub uninterp spec fn json_is_array(text: Seq<char>) -> bool;

/// Element `i` of the JSON array in `text`, when it is a string.
pub uninterp spec fn json_array_string(text: Seq<char>, i: nat) -> Option<Seq<char>>;

/// Element `i` of the JSON array in `text`, when it is a boolean.
pub uninterp spec fn json_array_bool(text: Seq<char>, i: nat) -> Option<bool>;

/// Element `i` of the JSON array in `text`, re-serialized as compact JSON.
pub uninterp spec fn json_array_item(text: Seq<char>, i: nat) -> Option<Seq<char>>;

/// `serde_json::from_str::<Vec<serde_json::Value>>(text)` succeeds.
/// Trusted: the result is `json_is_array(text)`; an object the library writes
/// is not an array.
#[verifier::external_body]
pub(crate) fn is_array(text: &str) -> (r: bool)
    ensures
        r == json_is_array(text@),
        forall|ms: Seq<(Seq<char>, Seq<char>)>| writer_members(ms) && text@ == #[trigger] written_object(ms) ==> !r,
{
    serde_json::from_str::<Vec<serde_json::Value>>(text).is_ok()
}

/// `serde_json::from_str::<Vec<serde_json::Value>>(text)`, then element `i`
/// and `Value::as_str`.
/// Trusted: the result is `json_array_string(text, i)`.
#[verifier::external_body]
pub(crate) fn array_string(text: &str, i: usize) -> (r: Option<String>)
    ensures
        match r {
            Some(s) => json_array_string(text@, i as nat) == Some(s@),
            None => json_array_string(text@, i as nat) is None,
        },
{
    match serde_json::from_str::<Vec<serde_json::Value>>(text) {
        Ok(a) => a.get(i).and_then(|v| v.as_str()).map(String::from),
        Err(_) => None,
    }
}

/// `serde_json::from_str::<Vec<serde_json::Value>>(text)`, then element `i`
/// and `Value::as_bool`.
/// Trusted: the result is `json_array_bool(text, i)`.
#[verifier::external_body]
pub(crate) fn array_bool(text: &str, i: usize) -> (r: Option<bool>)
    ensures
        r == json_array_bool(text@, i as nat),
{
    match serde_json::from_str::<Vec<serde_json::Value>>(text) {
        Ok(a) => a.get(i).and_then(|v| v.as_bool()),
        Err(_) => None,
    }
}

/// `serde_json::from_str::<Vec<serde_json::Value>>(text)`, then element `i`
/// written back with `Value::to_string`.
/// Trusted: the result is `json_array_item(text, i)`.
#[verifier::external_body]
pub(crate) fn array_item(text: &str, i: usize) -> (r: Option<String>)
    ensures
        match r {
            Some(s) => json_array_item(text@, i as nat) == Some(s@),
            None => json_array_item(text@, i as nat) is None,
        },
{
    match serde_json::from_str::<Vec<serde_json::Value>>(text) {
        Ok(a) => a.get(i).map(|v| v.to_string()),
        Err(_) => None,
    }
}

/// Element `i` of the JSON array in `text`, when it is an integer that fits an `i64`.
pub uninterp spec fn json_array_i64(text: Seq<char>, i: nat) -> Option<i64>;

/// Element `i` of the JSON array in `text`, when it is an integer that fits a `u64`.
pub uninterp spec fn json_array_u64(text: Seq<char>, i: nat) -> Option<u64>;

/// Element `i` of the JSON array in `text`, when it is an array of arrays of strings.
pub uninterp spec fn json_array_tags(text: Seq<char>, i: nat) -> Option<Seq<Seq<Seq<char>>>>;

/// `serde_json::from_str::<Vec<serde_json::Value>>(text)`, then element `i`
/// and `Value::as_i64`.
/// Trusted: the result is `json_array_i64(text, i)`.
#[verifier::external_body]
pub(crate) fn array_i64(text: &str, i: usize) -> (r: Option<i64>)
    ensures
        r == json_array_i64(text@, i as nat),
{
    match serde_json::from_str::<Vec<serde_json::Value>>(text) {
        Ok(a) => a.get(i).and_then(|v| v.as_i64()),
        Err(_) => None,
    }
}

/// `serde_json::from_str::<Vec<serde_json::Value>>(text)`, then element `i`
/// and `Value::as_u64`.
/// Trusted: the result is `json_array_u64(text, i)`.
#[verifier::external_body]
pub(crate) fn array_u64(text: &str, i: usize) -> (r: Option<u64>)
    ensures
        r == json_array_u64(text@, i as nat),
{
    match serde_json::from_str::<Vec<serde_json::Value>>(text) {
        Ok(a) => a.get(i).and_then(|v| v.as_u64()),
        Err(_) => None,
    }
}

/// `serde_json::from_str::<Vec<serde_json::Value>>(text)`, then element `i`
/// and `serde_json::from_value::<Vec<Vec<String>>>`.
/// Trusted: the result is `json_array_tags(text, i)`.
#[verifier::external_body]
pub(crate) fn array_tags(text: &str, i: usize) -> (r: Option<Vec<Vec<String>>>)
    ensures
        match r {
            Some(t) => json_array_tags(text@, i as nat) == Some(tags_view(t@)),
            None => json_array_tags(text@, i as nat) is None,
        },
{
    match serde_json::from_str::<Vec<serde_json::Value>>(text) {
        Ok(a) => a.get(i).and_then(|v| serde_json::from_value::<Vec<Vec<String>>>(v.clone()).ok()),
        Err(_) => None,
    }
}

} // verus!
