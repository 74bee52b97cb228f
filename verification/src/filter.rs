//! NIP-01 subscription filters: the relay wire form (tag filters under
//! `#e` / `#p` / `#t` / `#d` / `#h`, empty fields omitted) and local matching.
//! Absent (`None`) and empty fields impose no constraint.
use vstd::prelude::*;

use crate::event::Event;
use crate::json::{decimal_int, decimal_nat, join_commas, json_string_array, push_decimal_i64, push_decimal_u128, push_string_array};
use crate::json::{member_key, push_joined, push_key, push_member, strs_view, tags_view};
use crate::text::{push_char, str_eq};

verus! {

/// A Nostr subscription filter. Absent (`None`) or empty fields impose no constraint.
#[derive(Clone, Debug, Default, PartialEq, Eq)]
pub struct Filter {
    /// Event ids to match.
    pub ids: Option<Vec<String>>,
    /// Author x-only pubkeys (hex) to match.
    pub authors: Option<Vec<String>>,
    /// Event kinds to match.
    pub kinds: Option<Vec<u32>>,
    /// `e` tag values to match.
    pub e_tags: Option<Vec<String>>,
    /// `p` tag values to match.
    pub p_tags: Option<Vec<String>>,
    /// `t` tag values to match.
    pub t_tags: Option<Vec<String>>,
    /// `d` tag values to match.
    pub d_tags: Option<Vec<String>>,
    /// `h` tag values to match (NIP-29 group ids).
    pub h_tags: Option<Vec<String>>,
    /// Minimum `created_at` (inclusive).
    pub since: Option<i64>,
    /// Maximum `created_at` (inclusive).
    pub until: Option<i64>,
    /// Maximum number of events.
    pub limit: Option<u32>,
}

/// The character views of an optional list of strings.
pub open spec fn opt_strs(o: Option<Vec<String>>) -> Option<Seq<Seq<char>>> {
    match o {
        None => None,
        Some(v) => Some(strs_view(v@)),
    }
}

/// A string-list constraint: absent or empty, or containing `x`.
pub open spec fn str_constraint(o: Option<Seq<Seq<char>>>, x: Seq<char>) -> bool {
    match o {
        None => true,
        Some(vals) => vals.len() == 0 || vals.contains(x),
    }
}

/// A tag constraint: absent or empty, or some tag named `name` has a value in the list.
pub open spec fn tag_constraint(o: Option<Seq<Seq<char>>>, name: Seq<char>, tags: Seq<Seq<Seq<char>>>) -> bool {
    match o {
        None => true,
        Some(vals) => vals.len() == 0 || exists|i: int|
            0 <= i < tags.len() && tags[i].len() > 1 && tags[i][0] == name && #[trigger] vals.contains(tags[i][1]),
    }
}

/// Whether the filter accepts the event.
pub open spec fn filter_matches(f: Filter, e: Event) -> bool {
    let tags = tags_view(e.tags@);
    &&& str_constraint(opt_strs(f.ids), e.id@)
    &&& str_constraint(opt_strs(f.authors), e.pubkey@)
    &&& match f.kinds {
        None => true,
        Some(k) => k@.len() == 0 || k@.contains(e.kind),
    }
    &&& tag_constraint(opt_strs(f.e_tags), seq!['e'], tags)
    &&& tag_constraint(opt_strs(f.p_tags), seq!['p'], tags)
    &&& tag_constraint(opt_strs(f.t_tags), seq!['t'], tags)
    &&& tag_constraint(opt_strs(f.d_tags), seq!['d'], tags)
    &&& tag_constraint(opt_strs(f.h_tags), seq!['h'], tags)
    &&& match f.since {
        None => true,
        Some(s) => e.created_at >= s,
    }
    &&& match f.until {
        None => true,
        Some(u) => e.created_at <= u,
    }
}

/// The filter with no constraint at all.
pub open spec fn empty_filter() -> Filter {
    Filter {
        ids: None,
        authors: None,
        kinds: None,
        e_tags: None,
        p_tags: None,
        t_tags: None,
        d_tags: None,
        h_tags: None,
        since: None,
        until: None,
        limit: None,
    }
}

fn contains_str(vals: &[String], x: &str) -> (r: bool)
    ensures
        r == strs_view(vals@).contains(x@),
{
    let ghost vs = strs_view(vals@);
    let n = vals.len();
    for i in 0..n
        invariant
            n == vals@.len(),
            vs == strs_view(vals@),
            forall|k: int| 0 <= k < i ==> vs[k] != x@,
    {
        if str_eq(vals[i].as_str(), x) {
            assert(vs[i as int] == x@);
            return true;
        }
    }
    assert forall|k: int| 0 <= k < vs.len() implies vs[k] != x@ by {}
    false
}

fn contains_u32(vals: &[u32], x: u32) -> (r: bool)
    ensures
        r == vals@.contains(x),
{
    let n = vals.len();
    for i in 0..n
        invariant
            n == vals@.len(),
            forall|k: int| 0 <= k < i ==> vals@[k] != x,
    {
        if vals[i] == x {
            return true;
        }
    }
    false
}

fn str_constraint_holds(o: &Option<Vec<String>>, x: &str) -> (r: bool)
    ensures
        r == str_constraint(opt_strs(*o), x@),
{
    match o {
        None => true,
        Some(v) => v.len() == 0 || contains_str(v.as_slice(), x),
    }
}

impl Filter {
    /// A new empty filter builder.
    pub fn builder() -> (b: FilterBuilder)
        ensures
            b.filter_view() == empty_filter(),
    {
        FilterBuilder { f: Filter::empty() }
    }

    /// The filter without any constraint.
    pub fn empty() -> (f: Filter)
        ensures
            f == empty_filter(),
    {
        Filter {
            ids: None,
            authors: None,
            kinds: None,
            e_tags: None,
            p_tags: None,
            t_tags: None,
            d_tags: None,
            h_tags: None,
            since: None,
            until: None,
            limit: None,
        }
    }

    /// Does `event` satisfy every constraint in this filter?
    pub fn matches(&self, event: &Event) -> (r: bool)
        ensures
            r == filter_matches(*self, *event),
    {
        if !str_constraint_holds(&self.ids, event.id.as_str()) {
            return false;
        }
        if !str_constraint_holds(&self.authors, event.pubkey.as_str()) {
            return false;
        }
        match &self.kinds {
            None => {},
            Some(k) => {
                if k.len() > 0 && !contains_u32(k.as_slice(), event.kind) {
                    return false;
                }
            },
        }
        proof {
            reveal_strlit("e");
            reveal_strlit("p");
            reveal_strlit("t");
            reveal_strlit("d");
            reveal_strlit("h");
            assert("e"@ =~= seq!['e']);
            assert("p"@ =~= seq!['p']);
            assert("t"@ =~= seq!['t']);
            assert("d"@ =~= seq!['d']);
            assert("h"@ =~= seq!['h']);
        }
        if !Self::tag_matches("e", &self.e_tags, event) || !Self::tag_matches("p", &self.p_tags, event)
            || !Self::tag_matches("t", &self.t_tags, event) || !Self::tag_matches("d", &self.d_tags, event)
            || !Self::tag_matches("h", &self.h_tags, event) {
            return false;
        }
        match self.since {
            None => {},
            Some(since) => {
                if event.created_at < since {
                    return false;
                }
            },
        }
        match self.until {
            None => {},
            Some(until) => {
                if event.created_at > until {
                    return false;
                }
            },
        }
        true
    }

    fn tag_matches(name: &str, wanted: &Option<Vec<String>>, event: &Event) -> (r: bool)
        ensures
            r == tag_constraint(opt_strs(*wanted), name@, tags_view(event.tags@)),
    {
        let vals = match wanted {
            None => return true,
            Some(v) => v,
        };
        if vals.len() == 0 {
            return true;
        }
        let ghost tags = tags_view(event.tags@);
        let ghost vs = strs_view(vals@);
        assert(opt_strs(*wanted) == Some(vs));
        let n = event.tags.len();
        for i in 0..n
            invariant
                opt_strs(*wanted) == Some(vs),
                vs.len() > 0,
                n == event.tags@.len(),
                tags == tags_view(event.tags@),
                vs == strs_view(vals@),
                forall|k: int| 0 <= k < i ==> !(tags[k].len() > 1 && tags[k][0] == name@ && #[trigger] vs.contains(tags[k][1])),
        {
            let t = &event.tags[i];
            assert(tags[i as int] == strs_view(t@));
            if t.len() > 1 && str_eq(t[0].as_str(), name) && contains_str(vals.as_slice(), t[1].as_str()) {
                assert(tags[i as int].len() > 1 && tags[i as int][0] == name@ && vs.contains(tags[i as int][1]));
                return true;
            }
        }
        false
    }

    /// Serialize to the compact relay JSON form (empty fields omitted).
    pub fn to_json(&self) -> (s: String)
        ensures
            s@ == filter_json(*self),
    {
        proof {
            reveal_strlit("ids");
            reveal_strlit("authors");
            reveal_strlit("kinds");
            reveal_strlit("#e");
            reveal_strlit("#p");
            reveal_strlit("#t");
            reveal_strlit("#d");
            reveal_strlit("#h");
            reveal_strlit("since");
            reveal_strlit("until");
            reveal_strlit("limit");
            assert("ids"@ =~= seq!['i', 'd', 's']);
            assert("authors"@ =~= seq!['a', 'u', 't', 'h', 'o', 'r', 's']);
            assert("kinds"@ =~= seq!['k', 'i', 'n', 'd', 's']);
            assert("#e"@ =~= seq!['#', 'e']);
            assert("#p"@ =~= seq!['#', 'p']);
            assert("#t"@ =~= seq!['#', 't']);
            assert("#d"@ =~= seq!['#', 'd']);
            assert("#h"@ =~= seq!['#', 'h']);
            assert("since"@ =~= seq!['s', 'i', 'n', 'c', 'e']);
            assert("until"@ =~= seq!['u', 'n', 't', 'i', 'l']);
            assert("limit"@ =~= seq!['l', 'i', 'm', 'i', 't']);
        }
        let mut members: Vec<String> = Vec::new();
        assert(strs_view(members@) =~= Seq::<Seq<char>>::empty());
        push_str_member(&mut members, "ids", &self.ids);
        push_str_member(&mut members, "authors", &self.authors);
        push_kinds_member(&mut members, &self.kinds);
        push_str_member(&mut members, "#e", &self.e_tags);
        push_str_member(&mut members, "#p", &self.p_tags);
        push_str_member(&mut members, "#t", &self.t_tags);
        push_str_member(&mut members, "#d", &self.d_tags);
        push_str_member(&mut members, "#h", &self.h_tags);
        push_int_member(&mut members, "since", self.since);
        push_int_member(&mut members, "until", self.until);
        push_limit_member(&mut members, self.limit);
        let mut s = String::new();
        push_char(&mut s, '{');
        push_joined(&mut s, members.as_slice());
        push_char(&mut s, '}');
        assert(strs_view(members@) =~= filter_members(*self));
        s
    }
}

impl Filter {
    /// Serialize to the compact relay JSON form with the keys in sorted order
    /// (`#d`, `#e`, `#h`, `#p`, `#t`, `authors`, `ids`, `kinds`, `limit`,
    /// `since`, `until`), the way a `serde_json::Value` map writes it.
    pub fn to_value_json(&self) -> (s: String)
        ensures
            s@ == filter_value_json(*self),
    {
        proof {
            reveal_strlit("ids");
            reveal_strlit("authors");
            reveal_strlit("kinds");
            reveal_strlit("#e");
            reveal_strlit("#p");
            reveal_strlit("#t");
            reveal_strlit("#d");
            reveal_strlit("#h");
            reveal_strlit("since");
            reveal_strlit("until");
            reveal_strlit("limit");
            assert("ids"@ =~= seq!['i', 'd', 's']);
            assert("authors"@ =~= seq!['a', 'u', 't', 'h', 'o', 'r', 's']);
            assert("kinds"@ =~= seq!['k', 'i', 'n', 'd', 's']);
            assert("#e"@ =~= seq!['#', 'e']);
            assert("#p"@ =~= seq!['#', 'p']);
            assert("#t"@ =~= seq!['#', 't']);
            assert("#d"@ =~= seq!['#', 'd']);
            assert("#h"@ =~= seq!['#', 'h']);
            assert("since"@ =~= seq!['s', 'i', 'n', 'c', 'e']);
            assert("until"@ =~= seq!['u', 'n', 't', 'i', 'l']);
            assert("limit"@ =~= seq!['l', 'i', 'm', 'i', 't']);
        }
        let mut members: Vec<String> = Vec::new();
        assert(strs_view(members@) =~= Seq::<Seq<char>>::empty());
        push_str_member(&mut members, "#d", &self.d_tags);
        push_str_member(&mut members, "#e", &self.e_tags);
        push_str_member(&mut members, "#h", &self.h_tags);
        push_str_member(&mut members, "#p", &self.p_tags);
        push_str_member(&mut members, "#t", &self.t_tags);
        push_str_member(&mut members, "authors", &self.authors);
        push_str_member(&mut members, "ids", &self.ids);
        push_kinds_member(&mut members, &self.kinds);
        push_limit_member(&mut members, self.limit);
        push_int_member(&mut members, "since", self.since);
        push_int_member(&mut members, "until", self.until);
        let mut s = String::new();
        push_char(&mut s, '{');
        push_joined(&mut s, members.as_slice());
        push_char(&mut s, '}');
        assert(strs_view(members@) =~= filter_value_members(*self));
        s
    }
}

/// The members of the filter's JSON object in sorted key order.
pub open spec fn filter_value_members(f: Filter) -> Seq<Seq<char>> {
    str_member(seq!['#', 'd'], f.d_tags) + str_member(seq!['#', 'e'], f.e_tags) + str_member(seq!['#', 'h'], f.h_tags)
        + str_member(seq!['#', 'p'], f.p_tags) + str_member(seq!['#', 't'], f.t_tags)
        + str_member(seq!['a', 'u', 't', 'h', 'o', 'r', 's'], f.authors) + str_member(seq!['i', 'd', 's'], f.ids)
        + (match f.kinds {
        Some(k) => if k@.len() > 0 {
            seq![member_key(seq!['k', 'i', 'n', 'd', 's']) + json_u32_array(k@)]
        } else {
            seq![]
        },
        None => seq![],
    }) + (match f.limit {
        Some(v) => seq![member_key(seq!['l', 'i', 'm', 'i', 't']) + decimal_nat(v as nat)],
        None => seq![],
    }) + (match f.since {
        Some(v) => seq![member_key(seq!['s', 'i', 'n', 'c', 'e']) + decimal_int(v as int)],
        None => seq![],
    }) + (match f.until {
        Some(v) => seq![member_key(seq!['u', 'n', 't', 'i', 'l']) + decimal_int(v as int)],
        None => seq![],
    })
}

/// The compact JSON object of a filter with its keys in sorted order.
pub open spec fn filter_value_json(f: Filter) -> Seq<char> {
    seq!['{'] + join_commas(filter_value_members(f)) + seq!['}']
}

/// A string-list member, present when the list is non-empty.
pub open spec fn str_member(key: Seq<char>, o: Option<Vec<String>>) -> Seq<Seq<char>> {
    match o {
        Some(v) => if v@.len() > 0 {
            seq![member_key(key) + json_string_array(strs_view(v@))]
        } else {
            seq![]
        },
        None => seq![],
    }
}

/// A JSON array of unsigned numbers.
pub open spec fn json_u32_array(v: Seq<u32>) -> Seq<char> {
    seq!['['] + join_commas(v.map_values(|x: u32| decimal_nat(x as nat))) + seq![']']
}

/// The members of the filter's JSON object, in field order.
pub open spec fn filter_members(f: Filter) -> Seq<Seq<char>> {
    str_member(seq!['i', 'd', 's'], f.ids) + str_member(seq!['a', 'u', 't', 'h', 'o', 'r', 's'], f.authors)
        + (match f.kinds {
        Some(k) => if k@.len() > 0 {
            seq![member_key(seq!['k', 'i', 'n', 'd', 's']) + json_u32_array(k@)]
        } else {
            seq![]
        },
        None => seq![],
    }) + str_member(seq!['#', 'e'], f.e_tags) + str_member(seq!['#', 'p'], f.p_tags) + str_member(
        seq!['#', 't'],
        f.t_tags,
    ) + str_member(seq!['#', 'd'], f.d_tags) + str_member(seq!['#', 'h'], f.h_tags) + (match f.since {
        Some(v) => seq![member_key(seq!['s', 'i', 'n', 'c', 'e']) + decimal_int(v as int)],
        None => seq![],
    }) + (match f.until {
        Some(v) => seq![member_key(seq!['u', 'n', 't', 'i', 'l']) + decimal_int(v as int)],
        None => seq![],
    }) + (match f.limit {
        Some(v) => seq![member_key(seq!['l', 'i', 'm', 'i', 't']) + decimal_nat(v as nat)],
        None => seq![],
    })
}

/// The compact JSON object of a filter.
pub open spec fn filter_json(f: Filter) -> Seq<char> {
    seq!['{'] + join_commas(filter_members(f)) + seq!['}']
}

fn push_str_member(members: &mut Vec<String>, key: &str, o: &Option<Vec<String>>)
    ensures
        strs_view(final(members)@) == strs_view(old(members)@) + str_member(
            key@,
            *o,
        ),
{
    let ghost m0 = strs_view(members@);
    match o {
        Some(v) => {
            if v.len() > 0 {
                let mut m = String::new();
                push_key(&mut m, key);
                push_string_array(&mut m, v.as_slice());
                push_member(members, m);
                assert(strs_view(members@) =~= m0 + seq![m@]);
            } else {
                assert(strs_view(members@) =~= m0 + Seq::<Seq<char>>::empty());
            }
        },
        None => {
            assert(strs_view(members@) =~= m0 + Seq::<Seq<char>>::empty());
        },
    }
}

fn push_kinds_member(members: &mut Vec<String>, o: &Option<Vec<u32>>)
    ensures
        strs_view(final(members)@) == strs_view(old(members)@) + (match *o {
            Some(k) => if k@.len() > 0 {
                seq![member_key(seq!['k', 'i', 'n', 'd', 's']) + json_u32_array(k@)]
            } else {
                seq![]
            },
            None => seq![],
        }),
{
    proof {
        reveal_strlit("kinds");
        assert("kinds"@ =~= seq!['k', 'i', 'n', 'd', 's']);
    }
    let ghost m0 = strs_view(members@);
    match o {
        Some(k) => {
            if k.len() > 0 {
                let mut m = String::new();
                push_key(&mut m, "kinds");
                push_u32_array(&mut m, k.as_slice());
                push_member(members, m);
                return;
            }
        },
        None => {},
    }
    assert(strs_view(members@) =~= m0 + Seq::<Seq<char>>::empty());
}

fn push_int_member(members: &mut Vec<String>, key: &str, o: Option<i64>)
    ensures
        strs_view(final(members)@) == strs_view(old(members)@) + (match o {
            Some(v) => seq![member_key(key@) + decimal_int(v as int)],
            None => seq![],
        }),
{
    let ghost m0 = strs_view(members@);
    match o {
        Some(v) => {
            let mut m = String::new();
            push_key(&mut m, key);
            push_decimal_i64(&mut m, v);
            push_member(members, m);
            assert(strs_view(members@) =~= m0 + seq![member_key(key@) + decimal_int(v as int)]);
        },
        None => {
            assert(strs_view(members@) =~= m0 + Seq::<Seq<char>>::empty());
        },
    }
}

fn push_limit_member(members: &mut Vec<String>, o: Option<u32>)
    ensures
        strs_view(final(members)@) == strs_view(old(members)@) + (match o {
            Some(v) => seq![member_key(seq!['l', 'i', 'm', 'i', 't']) + decimal_nat(v as nat)],
            None => seq![],
        }),
{
    proof {
        reveal_strlit("limit");
        assert("limit"@ =~= seq!['l', 'i', 'm', 'i', 't']);
    }
    let ghost m0 = strs_view(members@);
    match o {
        Some(v) => {
            let mut m = String::new();
            push_key(&mut m, "limit");
            push_decimal_u128(&mut m, v as u128);
            push_member(members, m);
            assert(strs_view(members@) =~= m0 + seq![member_key(seq!['l', 'i', 'm', 'i', 't']) + decimal_nat(v as nat)]);
        },
        None => {
            assert(strs_view(members@) =~= m0 + Seq::<Seq<char>>::empty());
        },
    }
}

fn push_u32_array(out: &mut String, v: &[u32])
    ensures
        final(out)@ == old(out)@ + json_u32_array(v@),
{
    let ghost o0 = out@;
    let ghost items = v@.map_values(|x: u32| decimal_nat(x as nat));
    push_char(out, '[');
    let n = v.len();
    for i in 0..n
        invariant
            n == v@.len(),
            items == v@.map_values(|x: u32| decimal_nat(x as nat)),
            out@ == o0 + seq!['['] + join_commas(items.take(i as int)),
    {
        if i > 0 {
            push_char(out, ',');
        }
        push_decimal_u128(out, v[i] as u128);
        proof {
            let t = items.take(i + 1);
            assert(t.drop_last() == items.take(i as int));
            if i == 0 {
                assert(t.len() == 1);
            }
        }
    }
    assert(items.take(n as int) == items);
    push_char(out, ']');
}

/// Chained builder for [`Filter`].
pub struct FilterBuilder {
    f: Filter,
}

impl FilterBuilder {
    /// The filter built so far.
    pub closed spec fn filter_view(self) -> Filter {
        self.f
    }

    /// Set the event ids.
    pub fn ids(self, values: Vec<String>) -> (b: Self)
        ensures
            b.filter_view() == (Filter { ids: Some(values), ..self.filter_view() }),
    {
        let mut f = self.f;
        f.ids = Some(values);
        FilterBuilder { f }
    }

    /// Set the authors.
    pub fn authors(self, values: Vec<String>) -> (b: Self)
        ensures
            b.filter_view() == (Filter { authors: Some(values), ..self.filter_view() }),
    {
        let mut f = self.f;
        f.authors = Some(values);
        FilterBuilder { f }
    }

    /// Set the kinds.
    pub fn kinds(self, values: Vec<u32>) -> (b: Self)
        ensures
            b.filter_view() == (Filter { kinds: Some(values), ..self.filter_view() }),
    {
        let mut f = self.f;
        f.kinds = Some(values);
        FilterBuilder { f }
    }

    /// Set the `e` tag values.
    pub fn e_tags(self, values: Vec<String>) -> (b: Self)
        ensures
            b.filter_view() == (Filter { e_tags: Some(values), ..self.filter_view() }),
    {
        let mut f = self.f;
        f.e_tags = Some(values);
        FilterBuilder { f }
    }

    /// Set the `p` tag values.
    pub fn p_tags(self, values: Vec<String>) -> (b: Self)
        ensures
            b.filter_view() == (Filter { p_tags: Some(values), ..self.filter_view() }),
    {
        let mut f = self.f;
        f.p_tags = Some(values);
        FilterBuilder { f }
    }

    /// Set the `t` tag values.
    pub fn t_tags(self, values: Vec<String>) -> (b: Self)
        ensures
            b.filter_view() == (Filter { t_tags: Some(values), ..self.filter_view() }),
    {
        let mut f = self.f;
        f.t_tags = Some(values);
        FilterBuilder { f }
    }

    /// Set the `d` tag values.
    pub fn d_tags(self, values: Vec<String>) -> (b: Self)
        ensures
            b.filter_view() == (Filter { d_tags: Some(values), ..self.filter_view() }),
    {
        let mut f = self.f;
        f.d_tags = Some(values);
        FilterBuilder { f }
    }

    /// Set the `h` tag values.
    pub fn h_tags(self, values: Vec<String>) -> (b: Self)
        ensures
            b.filter_view() == (Filter { h_tags: Some(values), ..self.filter_view() }),
    {
        let mut f = self.f;
        f.h_tags = Some(values);
        FilterBuilder { f }
    }

    /// Convenience for a single kind.
    pub fn kind(self, kind: u32) -> (b: Self)
        ensures
            b.filter_view().kinds matches Some(k) && k@ == seq![kind],
            b.filter_view() == (Filter { kinds: b.filter_view().kinds, ..self.filter_view() }),
    {
        let mut f = self.f;
        let mut k: Vec<u32> = Vec::new();
        k.push(kind);
        f.kinds = Some(k);
        FilterBuilder { f }
    }

    /// Set `since`.
    pub fn since(self, since: i64) -> (b: Self)
        ensures
            b.filter_view() == (Filter { since: Some(since), ..self.filter_view() }),
    {
        let mut f = self.f;
        f.since = Some(since);
        FilterBuilder { f }
    }

    /// Set `until`.
    pub fn until(self, until: i64) -> (b: Self)
        ensures
            b.filter_view() == (Filter { until: Some(until), ..self.filter_view() }),
    {
        let mut f = self.f;
        f.until = Some(until);
        FilterBuilder { f }
    }

    /// Set `limit`.
    pub fn limit(self, limit: u32) -> (b: Self)
        ensures
            b.filter_view() == (Filter { limit: Some(limit), ..self.filter_view() }),
    {
        let mut f = self.f;
        f.limit = Some(limit);
        FilterBuilder { f }
    }

    /// Finish building.
    pub fn build(self) -> (f: Filter)
        ensures
            f == self.filter_view(),
    {
        self.f
    }
}

/// A filter without constraints accepts every event.
pub proof fn lemma_empty_filter_matches_all(e: Event)
    ensures
        filter_matches(empty_filter(), e),
{
}

/// Time bounds: an event created after `until` or before `since` never
/// matches, whatever else the filter asks.
pub proof fn lemma_filter_time_bounds(f: Filter, e: Event)
    ensures
        f.until matches Some(u) && e.created_at > u ==> !filter_matches(f, e),
        f.since matches Some(s) && e.created_at < s ==> !filter_matches(f, e),
{
}

/// Id, author and kind lists: a non-empty list that does not hold the event's
/// id (author, kind) rules the event out.
pub proof fn lemma_filter_lists_exclude(f: Filter, e: Event)
    ensures
        f.ids matches Some(v) && v@.len() > 0 && !strs_view(v@).contains(e.id@) ==> !filter_matches(f, e),
        f.authors matches Some(v) && v@.len() > 0 && !strs_view(v@).contains(e.pubkey@) ==> !filter_matches(f, e),
        f.kinds matches Some(k) && k@.len() > 0 && !k@.contains(e.kind) ==> !filter_matches(f, e),
{
}

/// Adding an `until` bound never lets in an event the filter refused, and keeps
/// exactly the events created at or before it.
pub proof fn lemma_filter_until(f: Filter, e: Event, u: i64)
    requires
        f.until is None,
    ensures
        filter_matches(Filter { until: Some(u), ..f }, e) == (filter_matches(f, e) && e.created_at <= u),
{
}

/// Adding a `since` bound keeps exactly the events created at or after it.
pub proof fn lemma_filter_since(f: Filter, e: Event, s: i64)
    requires
        f.since is None,
    ensures
        filter_matches(Filter { since: Some(s), ..f }, e) == (filter_matches(f, e) && e.created_at >= s),
{
}

/// A tag filter on `name` whose list is non-empty rules out an event none of
/// whose `name` tags carries one of the listed values.
pub open spec fn no_tag_value_in(e: Event, name: Seq<char>, vals: Seq<Seq<char>>) -> bool {
    forall|i: int| 0 <= i < e.tags@.len() && #[trigger] tags_view(e.tags@)[i].len() > 1
        && tags_view(e.tags@)[i][0] == name ==> !vals.contains(tags_view(e.tags@)[i][1])
}

/// Tag filters (`#e`, `#p`, `#t`, `#d`, `#h`): a non-empty list that none of
/// the event's tags of that name matches rules the event out.
pub proof fn lemma_filter_tags_exclude(f: Filter, e: Event)
    ensures
        f.e_tags matches Some(v) && v@.len() > 0 && no_tag_value_in(e, seq!['e'], strs_view(v@)) ==> !filter_matches(f, e),
        f.p_tags matches Some(v) && v@.len() > 0 && no_tag_value_in(e, seq!['p'], strs_view(v@)) ==> !filter_matches(f, e),
        f.t_tags matches Some(v) && v@.len() > 0 && no_tag_value_in(e, seq!['t'], strs_view(v@)) ==> !filter_matches(f, e),
        f.d_tags matches Some(v) && v@.len() > 0 && no_tag_value_in(e, seq!['d'], strs_view(v@)) ==> !filter_matches(f, e),
        f.h_tags matches Some(v) && v@.len() > 0 && no_tag_value_in(e, seq!['h'], strs_view(v@)) ==> !filter_matches(f, e),
{
    let tags = tags_view(e.tags@);
    assert(tags.len() == e.tags@.len());
}

} // verus!
