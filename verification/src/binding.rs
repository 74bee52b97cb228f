//! UNIP-01 nametag / identity binding events (kind 30078) and the
//! owner-resolution rule.
//!
//! Resolution is transport-free: [`resolve_owner`] takes the binding events a
//! relay returned and applies the UNIP-01 selection rule to them.
use vstd::prelude::*;

use crate::error::{Error, Result};
use crate::event::{id_digest, is_valid_event, signer_pubkey_hex, tag_value_spec, Event, Tag};
use crate::filter::{filter_matches, opt_strs, Filter};
use crate::json::{
    decimal_int, json_object, json_quoted, json_string_member, member_key, object_of, push_decimal_i64, push_key,
    push_member, string_member, string_member_text, strs_view, tags_view,
};
use crate::kinds;
use crate::nametag::{
    hash_address_for_tag, hash_address_spec, hash_nametag, hash_nametag_spec, has_marker_spec, has_ownership_marker,
    is_valid_nametag, is_valid_nametag_spec, marker_label, NAMETAG_MARKER_LABEL,
};
use crate::signer::Signer;
use crate::text::{lemma_seq_lt_total, lemma_seq_lt_transitive, seq_lt, str_eq, str_lt};

verus! {

/// Event `i` counts (it is in range and selected).
pub open spec fn counted(evs: Seq<Event>, inc: Seq<bool>, i: int) -> bool {
    0 <= i < evs.len() && i < inc.len() && inc[i]
}

/// Event `i` is its author's current binding: it counts, and no counted event
/// of the same author is later (between equal timestamps the earlier one wins).
pub open spec fn is_current(evs: Seq<Event>, inc: Seq<bool>, i: int) -> bool {
    &&& counted(evs, inc, i)
    &&& forall|j: int| #![trigger evs[j]] counted(evs, inc, j) && evs[j].pubkey@ == evs[i].pubkey@ ==> (
        evs[j].created_at < evs[i].created_at || (evs[j].created_at == evs[i].created_at && i <= j))
}

/// The earliest `created_at` among the first `n` events that count and are by `author`.
pub open spec fn first_seen_upto(evs: Seq<Event>, inc: Seq<bool>, author: Seq<char>, n: nat) -> Option<i64>
    decreases n,
{
    if n == 0 {
        None
    } else {
        let prev = first_seen_upto(evs, inc, author, (n - 1) as nat);
        let i = n - 1;
        if counted(evs, inc, i) && evs[i].pubkey@ == author {
            match prev {
                None => Some(evs[i].created_at),
                Some(t) => if evs[i].created_at < t { Some(evs[i].created_at) } else { Some(t) },
            }
        } else {
            prev
        }
    }
}

/// The author's first-seen time: the earliest `created_at` of its counted events.
pub open spec fn first_seen(evs: Seq<Event>, inc: Seq<bool>, author: Seq<char>) -> int {
    match first_seen_upto(evs, inc, author, evs.len()) {
        Some(t) => t as int,
        None => 0,
    }
}

/// The event carries the UNIP-01 single-owner marker.
pub open spec fn is_marked(e: Event) -> bool {
    has_marker_spec(tags_view(e.tags@))
}

/// Some author's current binding carries the marker.
pub open spec fn any_marked(evs: Seq<Event>, inc: Seq<bool>) -> bool {
    exists|i: int| is_current(evs, inc, i) && #[trigger] is_marked(evs[i])
}

/// `i` is the only current binding that carries the marker.
pub open spec fn sole_marked(evs: Seq<Event>, inc: Seq<bool>, i: int) -> bool {
    &&& is_current(evs, inc, i)
    &&& is_marked(evs[i])
    &&& forall|j: int| is_current(evs, inc, j) && #[trigger] is_marked(evs[j]) ==> j == i
}

/// Legacy order on authors: earlier first-seen, then smaller pubkey.
pub open spec fn ranks_before(evs: Seq<Event>, inc: Seq<bool>, i: int, j: int) -> bool {
    let fi = first_seen(evs, inc, evs[i].pubkey@);
    let fj = first_seen(evs, inc, evs[j].pubkey@);
    fi < fj || (fi == fj && seq_lt(evs[i].pubkey@, evs[j].pubkey@))
}

/// `i` is the current binding of the author that ranks first.
pub open spec fn legacy_winner(evs: Seq<Event>, inc: Seq<bool>, i: int) -> bool {
    &&& is_current(evs, inc, i)
    &&& forall|j: int| #[trigger] is_current(evs, inc, j) && j != i ==> ranks_before(evs, inc, i, j)
}

/// The UNIP-01 owner among the counted events, by index. If some author's
/// current binding is marked, the owner is the sole marked one (none when two
/// authors are marked); otherwise the first-seen author wins, ties broken by
/// the smaller pubkey.
pub open spec fn resolve_spec(evs: Seq<Event>, inc: Seq<bool>) -> Option<int> {
    if any_marked(evs, inc) {
        if exists|i: int| sole_marked(evs, inc, i) {
            Some(choose|i: int| sole_marked(evs, inc, i))
        } else {
            None
        }
    } else if exists|i: int| legacy_winner(evs, inc, i) {
        Some(choose|i: int| legacy_winner(evs, inc, i))
    } else {
        None
    }
}

/// Two current bindings by the same author are the same event.
pub proof fn lemma_current_unique(evs: Seq<Event>, inc: Seq<bool>, i: int, j: int)
    requires
        is_current(evs, inc, i),
        is_current(evs, inc, j),
        evs[i].pubkey@ == evs[j].pubkey@,
    ensures
        i == j,
{
    assert(evs[j] == evs[j]);
    assert(evs[i] == evs[i]);
}

/// An author with a counted event has a first-seen time, no later than any
/// of its counted events and equal to one of them.
proof fn lemma_first_seen_upto(evs: Seq<Event>, inc: Seq<bool>, author: Seq<char>, n: nat, j: int)
    requires
        0 <= j < n <= evs.len(),
        counted(evs, inc, j),
        evs[j].pubkey@ == author,
    ensures
        first_seen_upto(evs, inc, author, n) is Some,
        first_seen_upto(evs, inc, author, n)->0 <= evs[j].created_at,
    decreases n,
{
    if j < n - 1 {
        lemma_first_seen_upto(evs, inc, author, (n - 1) as nat, j);
    }
}

/// Which events count, one flag per event, and the current bindings found so far.
spec fn currents_complete(evs: Seq<Event>, inc: Seq<bool>, cur: Seq<usize>, upto: int) -> bool {
    &&& forall|k: int| 0 <= k < cur.len() ==> is_current(evs, inc, #[trigger] cur[k] as int)
    &&& forall|k: int, l: int| 0 <= k < l < cur.len() ==> #[trigger] cur[k] < #[trigger] cur[l]
    &&& forall|k: int| 0 <= k < cur.len() ==> #[trigger] cur[k] < upto
    &&& forall|i: int| 0 <= i < upto && is_current(evs, inc, i) ==> exists|k: int| 0 <= k < cur.len() && #[trigger] cur[k] == i
}

/// Is event `i` its author's current binding?
fn is_current_at(events: &[Event], selected: &[bool], i: usize) -> (r: bool)
    requires
        selected@.len() == events@.len(),
        i < events@.len(),
    ensures
        r == is_current(events@, selected@, i as int),
{
    if !selected[i] {
        return false;
    }
    let n = events.len();
    for j in 0..n
        invariant
            n == events@.len(),
            selected@.len() == n,
            i < n,
            selected@[i as int],
            forall|k: int| #![trigger events@[k]] 0 <= k < j && counted(events@, selected@, k) && events@[k].pubkey@ == events@[i as int].pubkey@ ==> (
                events@[k].created_at < events@[i as int].created_at || (events@[k].created_at == events@[i as int].created_at && i <= k)),
    {
        if selected[j] && str_eq(events[j].pubkey.as_str(), events[i].pubkey.as_str()) {
            if events[j].created_at > events[i].created_at || (events[j].created_at == events[i].created_at && j < i) {
                assert(events@[j as int] == events@[j as int]);
                return false;
            }
        }
    }
    true
}

/// The first-seen time of `author` among the counted events.
fn first_seen_of(events: &[Event], selected: &[bool], author: &str) -> (r: Option<i64>)
    requires
        selected@.len() == events@.len(),
    ensures
        r == first_seen_upto(events@, selected@, author@, events@.len()),
{
    let n = events.len();
    let mut best: Option<i64> = None;
    for j in 0..n
        invariant
            n == events@.len(),
            selected@.len() == n,
            best == first_seen_upto(events@, selected@, author@, j as nat),
    {
        if selected[j] && str_eq(events[j].pubkey.as_str(), author) {
            best = match best {
                None => Some(events[j].created_at),
                Some(t) => if events[j].created_at < t { Some(events[j].created_at) } else { Some(t) },
            };
        }
    }
    best
}

/// UNIP-01 owner selection over `events`, counting only those whose flag in
/// `selected` is set. Returns the index of the owner's current binding.
///
/// * Per author, the latest counted event is the author's current binding;
///   its first-seen time is its earliest counted `created_at`.
/// * If any author's current binding carries the UNIP-01 marker, the owner
///   comes from the marked ones: exactly one marked author wins, and two or
///   more are ambiguous (`None`); timestamps play no part.
/// * Otherwise the first-seen author wins, ties broken by the smaller pubkey.
#[verifier::rlimit(50)]
pub fn resolve_filtered(events: &[Event], selected: &[bool]) -> (r: Option<usize>)
    requires
        selected@.len() == events@.len(),
    ensures
        match r {
            Some(i) => resolve_spec(events@, selected@) == Some(i as int),
            None => resolve_spec(events@, selected@) is None,
        },
        (exists|i: int| counted(events@, selected@, i)) && !any_marked(events@, selected@) ==> r is Some,
{
    let ghost evs = events@;
    let ghost inc = selected@;
    let n = events.len();
    let mut current: Vec<usize> = Vec::new();
    for i in 0..n
        invariant
            n == evs.len(),
            evs == events@,
            inc == selected@,
            inc.len() == n,
            currents_complete(evs, inc, current@, i as int),
    {
        if is_current_at(events, selected, i) {
            let ghost old_cur = current@;
            current.push(i);
            proof {
                assert(current@[current@.len() - 1] == i);
                assert forall|x: int| 0 <= x < i + 1 && is_current(evs, inc, x) implies exists|k: int| 0 <= k < current@.len() && #[trigger] current@[k] == x by {
                    if x == i {
                        assert(current@[current@.len() - 1] == x);
                    } else {
                        let k = choose|k: int| 0 <= k < old_cur.len() && #[trigger] old_cur[k] == x;
                        assert(current@[k] == x);
                    }
                }
            }
        }
    }
    let len = current.len();
    if len == 0 {
        proof {
            assert forall|i: int| !is_current(evs, inc, i) by {
                if is_current(evs, inc, i) {
                    let k = choose|k: int| 0 <= k < current@.len() && #[trigger] current@[k] == i;
                }
            }
            assert forall|i: int| counted(evs, inc, i) implies false by {
                lemma_exists_current(evs, inc, i);
            }
        }
        return None;
    }
    // Marker preference, read from each author's current binding.
    let mut found: Option<usize> = None;
    for k in 0..len
        invariant
            len == current@.len(),
            n == evs.len(),
            evs == events@,
            inc == selected@,
            inc.len() == n,
            currents_complete(evs, inc, current@, n as int),
            match found {
                None => forall|l: int| 0 <= l < k ==> !is_marked(#[trigger] evs[current@[l] as int]),
                Some(f) => exists|l: int| 0 <= l < k && current@[l] == f && is_marked(evs[f as int]) && (forall|m: int|
                    0 <= m < k && #[trigger] is_marked(evs[current@[m] as int]) ==> m == l),
            },
    {
        let idx = current[k];
        if has_ownership_marker(&events[idx]) {
            match found {
                None => {
                    found = Some(idx);
                },
                Some(f) => {
                    proof {
                        let l = choose|l: int| 0 <= l < k && current@[l] == f && is_marked(evs[f as int]) && (forall|m: int|
                            0 <= m < k && #[trigger] is_marked(evs[current@[m] as int]) ==> m == l);
                        assert(current@[l] < current@[k as int]);
                        assert(is_current(evs, inc, current@[l] as int));
                        assert(is_current(evs, inc, current@[k as int] as int));
                        assert(is_marked(evs[current@[k as int] as int]));
                        assert(!exists|i: int| sole_marked(evs, inc, i)) by {
                            if exists|i: int| sole_marked(evs, inc, i) {
                                let i = choose|i: int| sole_marked(evs, inc, i);
                                assert(is_marked(evs[current@[l] as int]));
                                assert(current@[l] as int == i);
                                assert(current@[k as int] as int == i);
                            }
                        }
                    }
                    return None;
                },
            }
        }
    }
    if let Some(f) = found {
        proof {
            let l = choose|l: int| 0 <= l < len && current@[l] == f && is_marked(evs[f as int]) && (forall|m: int|
                0 <= m < len && #[trigger] is_marked(evs[current@[m] as int]) ==> m == l);
            assert(is_current(evs, inc, current@[l] as int));
            assert forall|j: int| is_current(evs, inc, j) && #[trigger] is_marked(evs[j]) implies j == f by {
                let m = choose|m: int| 0 <= m < current@.len() && #[trigger] current@[m] == j;
                assert(is_marked(evs[current@[m] as int]));
            }
            assert(sole_marked(evs, inc, f as int));
            assert(any_marked(evs, inc));
            let c = choose|i: int| sole_marked(evs, inc, i);
            assert(c == f);
        }
        return Some(f);
    }
    proof {
        assert forall|j: int| is_current(evs, inc, j) implies !#[trigger] is_marked(evs[j]) by {
            let m = choose|m: int| 0 <= m < current@.len() && #[trigger] current@[m] == j;
            assert(!is_marked(evs[current@[m] as int]));
        }
        assert(!any_marked(evs, inc));
    }
    // Legacy: the first-seen author, ties broken by the smaller pubkey.
    let mut best: usize = 0;
    let mut best_fs: i64 = match first_seen_of(events, selected, events[current[0]].pubkey.as_str()) {
        Some(t) => t,
        None => 0,
    };
    proof {
        lemma_first_seen_upto(evs, inc, evs[current@[0] as int].pubkey@, n as nat, current@[0] as int);
    }
    for k in 1..len
        invariant
            len == current@.len(),
            n == evs.len(),
            evs == events@,
            inc == selected@,
            inc.len() == n,
            currents_complete(evs, inc, current@, n as int),
            best < k,
            best_fs as int == first_seen(evs, inc, evs[current@[best as int] as int].pubkey@),
            forall|l: int| 0 <= l < k && l != best ==> ranks_before(evs, inc, current@[best as int] as int, #[trigger] current@[l] as int),
    {
        let idx = current[k];
        let fs = match first_seen_of(events, selected, events[idx].pubkey.as_str()) {
            Some(t) => t,
            None => 0,
        };
        proof {
            lemma_first_seen_upto(evs, inc, evs[idx as int].pubkey@, n as nat, idx as int);
        }
        let bidx = current[best];
        let better = fs < best_fs || (fs == best_fs && str_lt(events[idx].pubkey.as_str(), events[bidx].pubkey.as_str()));
        proof {
            let a = evs[idx as int].pubkey@;
            let b = evs[bidx as int].pubkey@;
            lemma_seq_lt_total(a, b);
            if a == b {
                lemma_current_unique(evs, inc, idx as int, bidx as int);
            }
        }
        if better {
            proof {
                assert forall|l: int| 0 <= l < k + 1 && l != k implies ranks_before(evs, inc, idx as int, #[trigger] current@[l] as int) by {
                    if l != best {
                        let c = evs[current@[l] as int].pubkey@;
                        let a = evs[idx as int].pubkey@;
                        let b = evs[bidx as int].pubkey@;
                        assert(ranks_before(evs, inc, bidx as int, current@[l] as int));
                        if seq_lt(a, b) && seq_lt(b, c) {
                            lemma_seq_lt_transitive(a, b, c);
                        }
                    }
                }
            }
            best = k;
            best_fs = fs;
        }
    }
    proof {
        let w = current@[best as int] as int;
        assert forall|j: int| #[trigger] is_current(evs, inc, j) && j != w implies ranks_before(evs, inc, w, j) by {
            let m = choose|m: int| 0 <= m < current@.len() && #[trigger] current@[m] == j;
            assert(m != best);
        }
        assert(legacy_winner(evs, inc, w));
        lemma_legacy_winner_unique(evs, inc, w, choose|i: int| legacy_winner(evs, inc, i));
    }
    Some(current[best])
}

/// A counted event means its author has a current binding.
proof fn lemma_exists_current(evs: Seq<Event>, inc: Seq<bool>, i: int)
    requires
        counted(evs, inc, i),
    ensures
        exists|j: int| is_current(evs, inc, j),
{
    let a = evs[i].pubkey@;
    lemma_latest_exists(evs, inc, a, evs.len() as nat, i);
}

/// Among the counted events of `author` before `n` (one of which is `i`),
/// some `j` is the latest, ties going to the earlier index.
#[verifier::rlimit(50)]
proof fn lemma_latest_exists(evs: Seq<Event>, inc: Seq<bool>, author: Seq<char>, n: nat, i: int)
    requires
        0 <= i < n <= evs.len(),
        counted(evs, inc, i),
        evs[i].pubkey@ == author,
    ensures
        exists|j: int| 0 <= j < n && counted(evs, inc, j) && #[trigger] evs[j].pubkey@ == author && (forall|k: int|
            #![trigger evs[k]] 0 <= k < n && counted(evs, inc, k) && evs[k].pubkey@ == author ==> (evs[k].created_at < evs[j].created_at
                || (evs[k].created_at == evs[j].created_at && j <= k))),
        n == evs.len() ==> exists|j: int| is_current(evs, inc, j),
    decreases n,
{
    let m = (n - 1) as int;
    let pick = |j: int| 0 <= j < n && counted(evs, inc, j) && evs[j].pubkey@ == author && (forall|k: int|
        #![trigger evs[k]] 0 <= k < n && counted(evs, inc, k) && evs[k].pubkey@ == author ==> (evs[k].created_at < evs[j].created_at
            || (evs[k].created_at == evs[j].created_at && j <= k)));
    let j: int;
    if i == m {
        if exists|x: int| 0 <= x < m && counted(evs, inc, x) && evs[x].pubkey@ == author {
            let x = choose|x: int| 0 <= x < m && counted(evs, inc, x) && evs[x].pubkey@ == author;
            lemma_latest_exists(evs, inc, author, m as nat, x);
            let p = choose|p: int| 0 <= p < m && counted(evs, inc, p) && #[trigger] evs[p].pubkey@ == author && (forall|k: int|
                #![trigger evs[k]] 0 <= k < m && counted(evs, inc, k) && evs[k].pubkey@ == author ==> (evs[k].created_at < evs[p].created_at
                    || (evs[k].created_at == evs[p].created_at && p <= k)));
            if evs[m].created_at > evs[p].created_at {
                j = m;
            } else {
                j = p;
            }
        } else {
            j = m;
        }
    } else {
        lemma_latest_exists(evs, inc, author, m as nat, i);
        let p = choose|p: int| 0 <= p < m && counted(evs, inc, p) && #[trigger] evs[p].pubkey@ == author && (forall|k: int|
            #![trigger evs[k]] 0 <= k < m && counted(evs, inc, k) && evs[k].pubkey@ == author ==> (evs[k].created_at < evs[p].created_at
                || (evs[k].created_at == evs[p].created_at && p <= k)));
        if counted(evs, inc, m) && evs[m].pubkey@ == author && evs[m].created_at > evs[p].created_at {
            j = m;
        } else {
            j = p;
        }
    }
    assert(pick(j));
    if n == evs.len() {
        assert(is_current(evs, inc, j));
    }
}

/// There is at most one legacy winner.
proof fn lemma_legacy_winner_unique(evs: Seq<Event>, inc: Seq<bool>, i: int, j: int)
    requires
        legacy_winner(evs, inc, i),
        legacy_winner(evs, inc, j),
    ensures
        i == j,
{
    if i != j {
        assert(ranks_before(evs, inc, i, j));
        assert(ranks_before(evs, inc, j, i));
        lemma_seq_lt_total(evs[i].pubkey@, evs[j].pubkey@);
    }
}

/// The events that count, in their order.
pub open spec fn counted_events(evs: Seq<Event>, inc: Seq<bool>) -> Seq<Event>
    decreases evs.len(),
{
    if evs.len() == 0 {
        Seq::empty()
    } else {
        let init = counted_events(evs.drop_last(), inc);
        if counted(evs, inc, evs.len() - 1) {
            init.push(evs.last())
        } else {
            init
        }
    }
}

/// The position of event `i` among the counted events.
pub open spec fn counted_rank(evs: Seq<Event>, inc: Seq<bool>, i: int) -> int {
    counted_events(evs.take(i), inc).len() as int
}

/// One set flag for each counted event.
pub open spec fn counted_flags(evs: Seq<Event>, inc: Seq<bool>) -> Seq<bool> {
    Seq::new(counted_events(evs, inc).len(), |k: int| true)
}

/// The event that `resolve_spec` picks, if any.
pub open spec fn owner_of(evs: Seq<Event>, inc: Seq<bool>) -> Option<Event> {
    match resolve_spec(evs, inc) {
        Some(i) => Some(evs[i]),
        None => None,
    }
}

/// Some counted event sits at position `k` among the counted events.
pub open spec fn rank_taken(evs: Seq<Event>, inc: Seq<bool>, k: int) -> bool {
    exists|i: int| #[trigger] counted(evs, inc, i) && counted_rank(evs, inc, i) == k
}

proof fn lemma_counted_rank(evs: Seq<Event>, inc: Seq<bool>)
    ensures
        forall|i: int| #[trigger] counted(evs, inc, i) ==> 0 <= counted_rank(evs, inc, i) < counted_events(evs, inc).len()
            && counted_events(evs, inc)[counted_rank(evs, inc, i)] == evs[i],
        forall|i: int, j: int| #[trigger] counted(evs, inc, i) && #[trigger] counted(evs, inc, j) && i < j
            ==> counted_rank(evs, inc, i) < counted_rank(evs, inc, j),
        forall|k: int| 0 <= k < counted_events(evs, inc).len() ==> #[trigger] rank_taken(evs, inc, k),
    decreases evs.len(),
{
    let w = counted_events(evs, inc);
    if evs.len() > 0 {
        let n = evs.len() as int;
        let init = evs.drop_last();
        let w0 = counted_events(init, inc);
        lemma_counted_rank(init, inc);
        assert forall|i: int| 0 <= i < n implies #[trigger] counted_rank(evs, inc, i) == counted_rank(init, inc, i) by {
            assert(evs.take(i) =~= init.take(i));
        }
        assert(counted_rank(evs, inc, n - 1) == w0.len()) by {
            assert(evs.take(n - 1) =~= init);
            assert(init.take(n - 1) =~= init);
        }
        assert(w.len() >= w0.len());
        assert forall|k: int| 0 <= k < w0.len() implies #[trigger] w[k] == w0[k] by {}
        assert forall|i: int| #[trigger] counted(evs, inc, i) implies 0 <= counted_rank(evs, inc, i) < w.len()
            && w[counted_rank(evs, inc, i)] == evs[i] by {
            if i < n - 1 {
                assert(counted(init, inc, i));
                assert(init[i] == evs[i]);
                assert(w[counted_rank(init, inc, i)] == w0[counted_rank(init, inc, i)]);
            }
        }
        assert forall|i: int, j: int| #[trigger] counted(evs, inc, i) && #[trigger] counted(evs, inc, j) && i < j
            implies counted_rank(evs, inc, i) < counted_rank(evs, inc, j) by {
            assert(counted(init, inc, i));
            if j < n - 1 {
                assert(counted(init, inc, j));
            }
        }
        assert forall|k: int| 0 <= k < w.len() implies #[trigger] rank_taken(evs, inc, k) by {
            if k < w0.len() {
                assert(rank_taken(init, inc, k));
                let i = choose|i: int| #[trigger] counted(init, inc, i) && counted_rank(init, inc, i) == k;
                assert(counted(evs, inc, i));
            } else {
                assert(counted(evs, inc, n - 1));
            }
        }
    }
}

proof fn lemma_current_relabel(evs: Seq<Event>, inc: Seq<bool>, i: int)
    requires
        counted(evs, inc, i),
    ensures
        is_current(evs, inc, i) == is_current(counted_events(evs, inc), counted_flags(evs, inc), counted_rank(evs, inc, i)),
{
    lemma_counted_rank(evs, inc);
    let w = counted_events(evs, inc);
    let t = counted_flags(evs, inc);
    let r = counted_rank(evs, inc, i);
    assert(w[r] == evs[i]);
    if is_current(evs, inc, i) {
        assert forall|k: int| #![trigger w[k]] counted(w, t, k) && w[k].pubkey@ == w[r].pubkey@ implies (
            w[k].created_at < w[r].created_at || (w[k].created_at == w[r].created_at && r <= k)) by {
            assert(rank_taken(evs, inc, k));
            let j = choose|j: int| #[trigger] counted(evs, inc, j) && counted_rank(evs, inc, j) == k;
            assert(w[k] == evs[j]);
            if i < j {
                assert(counted(evs, inc, i) && counted(evs, inc, j));
            }
        }
        assert(is_current(w, t, r));
    }
    if is_current(w, t, r) {
        assert forall|j: int| #![trigger evs[j]] counted(evs, inc, j) && evs[j].pubkey@ == evs[i].pubkey@ implies (
            evs[j].created_at < evs[i].created_at || (evs[j].created_at == evs[i].created_at && i <= j)) by {
            let k = counted_rank(evs, inc, j);
            assert(w[k] == evs[j]);
            assert(counted(w, t, k));
            if j < i {
                assert(counted(evs, inc, j) && counted(evs, inc, i));
            }
        }
    }
}

proof fn lemma_first_seen_upto_attained(evs: Seq<Event>, inc: Seq<bool>, author: Seq<char>, n: nat)
    requires
        n <= evs.len(),
    ensures
        first_seen_upto(evs, inc, author, n) matches Some(t) ==> exists|j: int| 0 <= j < n && counted(evs, inc, j)
            && #[trigger] evs[j].pubkey@ == author && evs[j].created_at == t,
    decreases n,
{
    if n > 0 {
        lemma_first_seen_upto_attained(evs, inc, author, (n - 1) as nat);
    }
}

proof fn lemma_first_seen_relabel(evs: Seq<Event>, inc: Seq<bool>, author: Seq<char>)
    ensures
        first_seen(evs, inc, author) == first_seen(counted_events(evs, inc), counted_flags(evs, inc), author),
{
    lemma_counted_rank(evs, inc);
    let w = counted_events(evs, inc);
    let t = counted_flags(evs, inc);
    let fe = first_seen_upto(evs, inc, author, evs.len());
    let fw = first_seen_upto(w, t, author, w.len());
    lemma_first_seen_upto_attained(evs, inc, author, evs.len());
    lemma_first_seen_upto_attained(w, t, author, w.len());
    if fe is Some {
        let j = choose|j: int| 0 <= j < evs.len() && counted(evs, inc, j) && #[trigger] evs[j].pubkey@ == author
            && evs[j].created_at == fe->0;
        let kj = counted_rank(evs, inc, j);
        assert(w[kj] == evs[j]);
        lemma_first_seen_upto(w, t, author, w.len(), kj);
        let k = choose|k: int| 0 <= k < w.len() && counted(w, t, k) && #[trigger] w[k].pubkey@ == author
            && w[k].created_at == fw->0;
        assert(rank_taken(evs, inc, k));
        let i = choose|i: int| #[trigger] counted(evs, inc, i) && counted_rank(evs, inc, i) == k;
        assert(w[k] == evs[i]);
        lemma_first_seen_upto(evs, inc, author, evs.len(), i);
    } else if fw is Some {
        let k = choose|k: int| 0 <= k < w.len() && counted(w, t, k) && #[trigger] w[k].pubkey@ == author
            && w[k].created_at == fw->0;
        assert(rank_taken(evs, inc, k));
        let i = choose|i: int| #[trigger] counted(evs, inc, i) && counted_rank(evs, inc, i) == k;
        assert(w[k] == evs[i]);
        lemma_first_seen_upto(evs, inc, author, evs.len(), i);
    }
}

proof fn lemma_ranks_before_relabel(evs: Seq<Event>, inc: Seq<bool>, i: int, j: int)
    requires
        counted(evs, inc, i),
        counted(evs, inc, j),
    ensures
        ranks_before(evs, inc, i, j) == ranks_before(counted_events(evs, inc), counted_flags(evs, inc),
            counted_rank(evs, inc, i), counted_rank(evs, inc, j)),
{
    lemma_counted_rank(evs, inc);
    lemma_first_seen_relabel(evs, inc, evs[i].pubkey@);
    lemma_first_seen_relabel(evs, inc, evs[j].pubkey@);
}

/// Every current binding of the counted events comes from a counted event.
proof fn lemma_current_from(evs: Seq<Event>, inc: Seq<bool>, k: int)
    requires
        is_current(counted_events(evs, inc), counted_flags(evs, inc), k),
    ensures
        exists|i: int| #[trigger] counted(evs, inc, i) && counted_rank(evs, inc, i) == k && is_current(evs, inc, i),
{
    lemma_counted_rank(evs, inc);
    assert(rank_taken(evs, inc, k));
    let i = choose|i: int| #[trigger] counted(evs, inc, i) && counted_rank(evs, inc, i) == k;
    lemma_current_relabel(evs, inc, i);
}

proof fn lemma_legacy_relabel(evs: Seq<Event>, inc: Seq<bool>, i: int)
    requires
        counted(evs, inc, i),
    ensures
        legacy_winner(evs, inc, i) == legacy_winner(counted_events(evs, inc), counted_flags(evs, inc),
            counted_rank(evs, inc, i)),
{
    lemma_counted_rank(evs, inc);
    let w = counted_events(evs, inc);
    let t = counted_flags(evs, inc);
    let r = counted_rank(evs, inc, i);
    lemma_current_relabel(evs, inc, i);
    if legacy_winner(evs, inc, i) {
        assert forall|k: int| #[trigger] is_current(w, t, k) && k != r implies ranks_before(w, t, r, k) by {
            lemma_current_from(evs, inc, k);
            let j = choose|j: int| #[trigger] counted(evs, inc, j) && counted_rank(evs, inc, j) == k && is_current(evs, inc, j);
            assert(j != i);
            lemma_ranks_before_relabel(evs, inc, i, j);
        }
    }
    if legacy_winner(w, t, r) {
        assert forall|j: int| #[trigger] is_current(evs, inc, j) && j != i implies ranks_before(evs, inc, i, j) by {
            lemma_current_relabel(evs, inc, j);
            if counted_rank(evs, inc, j) == r {
                if i < j {
                    assert(counted(evs, inc, i) && counted(evs, inc, j));
                } else {
                    assert(counted(evs, inc, j) && counted(evs, inc, i));
                }
            }
            lemma_ranks_before_relabel(evs, inc, i, j);
        }
    }
}

proof fn lemma_sole_relabel(evs: Seq<Event>, inc: Seq<bool>, i: int)
    requires
        counted(evs, inc, i),
    ensures
        sole_marked(evs, inc, i) == sole_marked(counted_events(evs, inc), counted_flags(evs, inc),
            counted_rank(evs, inc, i)),
{
    lemma_counted_rank(evs, inc);
    let w = counted_events(evs, inc);
    let t = counted_flags(evs, inc);
    let r = counted_rank(evs, inc, i);
    lemma_current_relabel(evs, inc, i);
    assert(w[r] == evs[i]);
    if sole_marked(evs, inc, i) {
        assert forall|k: int| is_current(w, t, k) && #[trigger] is_marked(w[k]) implies k == r by {
            lemma_current_from(evs, inc, k);
            let j = choose|j: int| #[trigger] counted(evs, inc, j) && counted_rank(evs, inc, j) == k && is_current(evs, inc, j);
            assert(w[k] == evs[j]);
            assert(is_marked(evs[j]));
        }
    }
    if sole_marked(w, t, r) {
        assert forall|j: int| is_current(evs, inc, j) && #[trigger] is_marked(evs[j]) implies j == i by {
            lemma_current_relabel(evs, inc, j);
            let k = counted_rank(evs, inc, j);
            assert(w[k] == evs[j]);
            assert(is_marked(w[k]));
            if i < j {
                assert(counted(evs, inc, i) && counted(evs, inc, j));
            } else if j < i {
                assert(counted(evs, inc, j) && counted(evs, inc, i));
            }
        }
    }
}

/// The owner depends only on the counted events and their order: dropping the
/// events that do not count leaves it unchanged.
pub proof fn lemma_owner_of_counted(evs: Seq<Event>, inc: Seq<bool>)
    ensures
        owner_of(evs, inc) == owner_of(counted_events(evs, inc), counted_flags(evs, inc)),
{
    lemma_counted_rank(evs, inc);
    let w = counted_events(evs, inc);
    let t = counted_flags(evs, inc);
    assert(any_marked(evs, inc) == any_marked(w, t)) by {
        if any_marked(evs, inc) {
            let i = choose|i: int| is_current(evs, inc, i) && #[trigger] is_marked(evs[i]);
            lemma_current_relabel(evs, inc, i);
            let r = counted_rank(evs, inc, i);
            assert(w[r] == evs[i]);
            assert(is_marked(w[r]));
        }
        if any_marked(w, t) {
            let k = choose|k: int| is_current(w, t, k) && #[trigger] is_marked(w[k]);
            lemma_current_from(evs, inc, k);
            let i = choose|i: int| #[trigger] counted(evs, inc, i) && counted_rank(evs, inc, i) == k && is_current(evs, inc, i);
            assert(w[k] == evs[i]);
            assert(is_marked(evs[i]));
        }
    }
    if any_marked(evs, inc) {
        if exists|i: int| sole_marked(evs, inc, i) {
            let i = choose|i: int| sole_marked(evs, inc, i);
            lemma_sole_relabel(evs, inc, i);
            let r = counted_rank(evs, inc, i);
            let k = choose|k: int| sole_marked(w, t, k);
            assert(is_current(w, t, r) && is_marked(w[r]));
            assert(k == r);
        } else if exists|k: int| sole_marked(w, t, k) {
            let k = choose|k: int| sole_marked(w, t, k);
            lemma_current_from(evs, inc, k);
            let i = choose|i: int| #[trigger] counted(evs, inc, i) && counted_rank(evs, inc, i) == k && is_current(evs, inc, i);
            lemma_sole_relabel(evs, inc, i);
        }
    } else {
        if exists|i: int| legacy_winner(evs, inc, i) {
            let i = choose|i: int| legacy_winner(evs, inc, i);
            lemma_legacy_relabel(evs, inc, i);
            let r = counted_rank(evs, inc, i);
            let k = choose|k: int| legacy_winner(w, t, k);
            lemma_legacy_winner_unique(w, t, k, r);
        } else if exists|k: int| legacy_winner(w, t, k) {
            let k = choose|k: int| legacy_winner(w, t, k);
            lemma_current_from(evs, inc, k);
            let i = choose|i: int| #[trigger] counted(evs, inc, i) && counted_rank(evs, inc, i) == k && is_current(evs, inc, i);
            lemma_legacy_relabel(evs, inc, i);
        }
    }
}

/// The test that `resolve_owner` applies to each event: its signature verifies.
pub open spec fn valid_event_pred() -> spec_fn(Event) -> bool {
    |e: Event| is_valid_event(e)
}

/// The test that `resolve_nametag_owner` applies to each event.
pub open spec fn binding_pred(want: Seq<char>) -> spec_fn(Event) -> bool {
    |e: Event| is_binding_for(e, want)
}

proof fn lemma_counted_events_filter(evs: Seq<Event>, inc: Seq<bool>, p: spec_fn(Event) -> bool)
    requires
        inc.len() >= evs.len(),
        forall|i: int| 0 <= i < evs.len() ==> inc[i] == p(#[trigger] evs[i]),
    ensures
        counted_events(evs, inc) == evs.filter(p),
    decreases evs.len(),
{
    reveal_with_fuel(Seq::filter, 1);
    if evs.len() > 0 {
        let init = evs.drop_last();
        assert forall|i: int| 0 <= i < init.len() implies inc[i] == p(#[trigger] init[i]) by {
            assert(init[i] == evs[i]);
        }
        lemma_counted_events_filter(init, inc, p);
        assert(inc[evs.len() - 1] == p(evs[evs.len() - 1]));
    }
}

proof fn lemma_owner_of_filtered(evs: Seq<Event>, inc: Seq<bool>, p: spec_fn(Event) -> bool)
    requires
        inc.len() == evs.len(),
        forall|i: int| 0 <= i < evs.len() ==> inc[i] == p(#[trigger] evs[i]),
    ensures
        owner_of(evs, inc) == owner_of(evs.filter(p), Seq::new(evs.filter(p).len(), |k: int| true)),
{
    lemma_counted_events_filter(evs, inc, p);
    lemma_owner_of_counted(evs, inc);
}

/// Dropping the events whose signature does not verify, keeping the order of
/// the rest, leaves `resolve_owner`'s result unchanged; so when no event
/// verifies there is no owner.
pub proof fn lemma_resolve_owner_ignores_invalid(events: Seq<Event>)
    ensures
        owner_of(events, signature_flags(events)) == owner_of(events.filter(valid_event_pred()),
            signature_flags(events.filter(valid_event_pred()))),
        (forall|i: int| 0 <= i < events.len() ==> !is_valid_event(#[trigger] events[i]))
            ==> owner_of(events, signature_flags(events)) is None,
{
    let p = valid_event_pred();
    let v = events.filter(p);
    lemma_owner_of_filtered(events, signature_flags(events), p);
    assert forall|k: int| 0 <= k < v.len() implies #[trigger] signature_flags(v)[k] == true by {
        events.lemma_filter_pred(p, k);
    }
    assert(signature_flags(v) =~= Seq::new(v.len(), |k: int| true));
    if forall|i: int| 0 <= i < events.len() ==> !is_valid_event(#[trigger] events[i]) {
        lemma_counted_events_filter(events, signature_flags(events), p);
        assert(v.len() == 0) by {
            if v.len() > 0 {
                lemma_filter_nonempty(events, p);
            }
        }
        assert(!any_marked(v, signature_flags(v)));
        assert(!exists|i: int| legacy_winner(v, signature_flags(v), i));
    }
}

proof fn lemma_filter_nonempty(s: Seq<Event>, p: spec_fn(Event) -> bool)
    requires
        s.filter(p).len() > 0,
    ensures
        exists|i: int| 0 <= i < s.len() && p(#[trigger] s[i]),
    decreases s.len(),
{
    reveal_with_fuel(Seq::filter, 1);
    if s.len() > 0 && !p(s.last()) {
        lemma_filter_nonempty(s.drop_last(), p);
        let i = choose|i: int| 0 <= i < s.drop_last().len() && p(#[trigger] s.drop_last()[i]);
        assert(s[i] == s.drop_last()[i]);
    } else if s.len() > 0 {
        assert(p(s[s.len() - 1]));
    }
}

/// The owner of a nametag depends only on the matching binding events and their
/// order: two event lists with the same matching events (for instance, one with
/// non-matching, malformed or badly signed events mixed in anywhere) resolve to
/// the same owner.
pub proof fn lemma_nametag_owner_ignores_nonmatching(events: Seq<Event>, events2: Seq<Event>, want: Seq<char>)
    requires
        events2.filter(binding_pred(want)) == events.filter(binding_pred(want)),
    ensures
        owner_of(events2, binding_flags(events2, want)) == owner_of(events, binding_flags(events, want)),
{
    lemma_owner_of_filtered(events, binding_flags(events, want), binding_pred(want));
    lemma_owner_of_filtered(events2, binding_flags(events2, want), binding_pred(want));
}

/// Putting an event that is not a matching binding anywhere into a list leaves
/// its matching events, and so its nametag owner, unchanged.
pub proof fn lemma_insert_nonmatching(a: Seq<Event>, x: Event, b: Seq<Event>, want: Seq<char>)
    requires
        !is_binding_for(x, want),
    ensures
        (a + seq![x] + b).filter(binding_pred(want)) == (a + b).filter(binding_pred(want)),
        owner_of(a + seq![x] + b, binding_flags(a + seq![x] + b, want)) == owner_of(a + b, binding_flags(a + b, want)),
{
    let p = binding_pred(want);
    reveal_with_fuel(Seq::filter, 2);
    Seq::filter_distributes_over_add(a + seq![x], b, p);
    Seq::filter_distributes_over_add(a, seq![x], p);
    Seq::filter_distributes_over_add(a, b, p);
    assert(seq![x].drop_last() =~= Seq::<Event>::empty());
    assert(seq![x].filter(p) =~= Seq::<Event>::empty());
    assert(a.filter(p) + Seq::<Event>::empty() =~= a.filter(p));
    lemma_nametag_owner_ignores_nonmatching(a + b, a + seq![x] + b, want);
}


/// Extended identity fields for a richer binding (all optional).
#[derive(Clone, Debug, Default)]
pub struct IdentityBindingParams {
    /// 33-byte compressed secp256k1 public key (hex).
    pub public_key: Option<String>,
    /// L1 bech32 address.
    pub l1_address: Option<String>,
    /// DIRECT:// address.
    pub direct_address: Option<String>,
    /// PROXY:// address.
    pub proxy_address: Option<String>,
}

/// Parsed binding info.
#[derive(Clone, Debug, Default, PartialEq, Eq)]
pub struct BindingInfo {
    /// Event author's 32-byte Nostr pubkey (hex).
    pub transport_pubkey: String,
    /// 33-byte compressed secp256k1 pubkey (hex), from content.
    pub public_key: Option<String>,
    /// L1 address, from content.
    pub l1_address: Option<String>,
    /// DIRECT:// address, from content.
    pub direct_address: Option<String>,
    /// PROXY:// address, from content.
    pub proxy_address: Option<String>,
    /// Plaintext nametag, from content (when present).
    pub nametag: Option<String>,
    /// Event timestamp in milliseconds.
    pub timestamp: i64,
}

/// The character view of an optional string.
pub open spec fn opt_view(o: Option<String>) -> Option<Seq<char>> {
    match o {
        Some(s) => Some(s@),
        None => None,
    }
}

/// Seconds to milliseconds, saturating at the `i64` bounds.
pub open spec fn millis_saturating(secs: i64) -> i64 {
    if secs * 1000 > i64::MAX {
        i64::MAX
    } else if secs * 1000 < i64::MIN {
        i64::MIN
    } else {
        (secs * 1000) as i64
    }
}

fn millis(secs: i64) -> (r: i64)
    ensures
        r == millis_saturating(secs),
{
    if secs > i64::MAX / 1000 {
        i64::MAX
    } else if secs < i64::MIN / 1000 {
        i64::MIN
    } else {
        secs * 1000
    }
}

/// The string member `key` of the content of `e`.
pub open spec fn content_member(e: Event, key: Seq<char>) -> Option<Seq<char>> {
    json_string_member(e.content@, key)
}

/// Parse a binding event's content into [`BindingInfo`] (best effort): each
/// content field is present when the content is a JSON object holding it as
/// a string.
pub fn parse_binding_info(event: &Event) -> (r: BindingInfo)
    ensures
        r.transport_pubkey@ == event.pubkey@,
        opt_view(r.public_key) == content_member(*event, "public_key"@),
        opt_view(r.l1_address) == content_member(*event, "l1_address"@),
        opt_view(r.direct_address) == content_member(*event, "direct_address"@),
        opt_view(r.proxy_address) == content_member(*event, "proxy_address"@),
        opt_view(r.nametag) == content_member(*event, "nametag"@),
        r.timestamp == millis_saturating(event.created_at),
{
    let c = event.content.as_str();
    BindingInfo {
        transport_pubkey: event.pubkey.clone(),
        public_key: string_member(c, "public_key"),
        l1_address: string_member(c, "l1_address"),
        direct_address: string_member(c, "direct_address"),
        proxy_address: string_member(c, "proxy_address"),
        nametag: string_member(c, "nametag"),
        timestamp: millis(event.created_at),
    }
}

/// A non-empty string member `key` in the content of `e`.
pub open spec fn has_nonempty_member(e: Event, key: Seq<char>) -> bool {
    content_member(e, key) matches Some(v) && v.len() > 0
}

/// A structurally valid, correctly signed binding event: kind 30078, a `d`
/// tag value, non-empty `nametag_hash` and `address` content fields.
pub open spec fn is_valid_binding_spec(e: Event) -> bool {
    &&& e.kind == kinds::APP_DATA
    &&& tag_value_spec(tags_view(e.tags@), seq!['d']) is Some
    &&& has_nonempty_member(e, "nametag_hash"@)
    &&& has_nonempty_member(e, "address"@)
    &&& is_valid_event(e)
}

fn nonempty_member(content: &str, key: &str) -> (r: bool)
    ensures
        r == (json_string_member(content@, key@) matches Some(v) && v.len() > 0),
{
    match string_member(content, key) {
        Some(v) => !v.as_str().is_empty(),
        None => false,
    }
}

/// Structural + signature validity of a binding event.
pub fn is_valid_binding_event(event: &Event) -> (r: bool)
    ensures
        r == is_valid_binding_spec(*event),
{
    proof {
        reveal_strlit("d");
        assert("d"@ =~= seq!['d']);
    }
    if event.kind != kinds::APP_DATA || event.tag_value("d").is_none() {
        return false;
    }
    let c = event.content.as_str();
    let ok_content = nonempty_member(c, "nametag_hash") && nonempty_member(c, "address");
    ok_content && event.verify()
}

/// One flag per event: its signature verifies.
pub open spec fn signature_flags(evs: Seq<Event>) -> Seq<bool> {
    Seq::new(evs.len(), |i: int| is_valid_event(evs[i]))
}

/// One flag per event: a valid binding whose `d` tag is `want`.
pub open spec fn binding_flags(evs: Seq<Event>, want: Seq<char>) -> Seq<bool> {
    Seq::new(evs.len(), |i: int| is_binding_for(evs[i], want))
}

/// A valid binding event whose `d` tag is `want`.
pub open spec fn is_binding_for(e: Event, want: Seq<char>) -> bool {
    is_valid_binding_spec(e) && tag_value_spec(tags_view(e.tags@), seq!['d']) == Some(want)
}

/// Low-level owner selection over a set of binding events. Only signatures
/// are checked, so this trusts the caller to have supplied events that match
/// the intended query; [`resolve_nametag_owner`] enforces the nametag itself.
pub fn resolve_owner(events: &[Event]) -> (r: Option<&Event>)
    ensures
        match r {
            Some(e) => resolve_spec(events@, signature_flags(events@)) matches Some(i) && *e == events@[i],
            None => resolve_spec(events@, signature_flags(events@)) is None,
        },
        r matches Some(e) ==> is_valid_event(*e),
        owner_of(events@, signature_flags(events@)) == match r {
            Some(e) => Some(*e),
            None => None::<Event>,
        },
{
    let n = events.len();
    let mut flags: Vec<bool> = Vec::new();
    for i in 0..n
        invariant
            n == events@.len(),
            flags@ == signature_flags(events@).take(i as int),
    {
        let ok = events[i].verify();
        flags.push(ok);
        assert(flags@ == signature_flags(events@).take(i + 1));
    }
    assert(flags@ == signature_flags(events@));
    match resolve_filtered(events, flags.as_slice()) {
        Some(i) => Some(&events[i]),
        None => None,
    }
}

/// The pubkey (hex) of [`resolve_owner`]'s result.
pub fn resolve_pubkey(events: &[Event]) -> (r: Option<String>)
    ensures
        match r {
            Some(p) => resolve_spec(events@, signature_flags(events@)) matches Some(i) && p@ == events@[i].pubkey@,
            None => resolve_spec(events@, signature_flags(events@)) is None,
        },
{
    match resolve_owner(events) {
        Some(e) => Some(e.pubkey.clone()),
        None => None,
    }
}

/// Resolve the owner of `nametag_id` from relay-returned events, enforcing
/// the requested identity locally: an event counts only if it is a valid
/// binding event (kind 30078, well-formed content, valid signature) whose `d`
/// tag equals `hash_nametag(nametag_id)`. A relay cannot make an event of
/// another kind or for another nametag the owner.
pub fn resolve_nametag_owner<'a>(events: &'a [Event], nametag_id: &str) -> (r: Option<&'a Event>)
    ensures
        match r {
            Some(e) => resolve_spec(events@, binding_flags(events@, hash_nametag_spec(nametag_id@))) matches Some(i)
                && *e == events@[i],
            None => resolve_spec(events@, binding_flags(events@, hash_nametag_spec(nametag_id@))) is None,
        },
        r matches Some(e) ==> is_binding_for(*e, hash_nametag_spec(nametag_id@)),
        owner_of(events@, binding_flags(events@, hash_nametag_spec(nametag_id@))) == match r {
            Some(e) => Some(*e),
            None => None::<Event>,
        },
{
    proof {
        reveal_strlit("d");
        assert("d"@ =~= seq!['d']);
    }
    let want = hash_nametag(nametag_id);
    let ghost w = hash_nametag_spec(nametag_id@);
    let n = events.len();
    let mut flags: Vec<bool> = Vec::new();
    for i in 0..n
        invariant
            n == events@.len(),
            want@ == w,
            "d"@ == seq!['d'],
            flags@ == binding_flags(events@, w).take(i as int),
    {
        let ok = is_valid_binding_event(&events[i]) && match events[i].tag_value("d") {
            Some(v) => str_eq(v, want.as_str()),
            None => false,
        };
        flags.push(ok);
        assert(flags@ == binding_flags(events@, w).take(i + 1));
    }
    assert(flags@ == binding_flags(events@, w));
    match resolve_filtered(events, flags.as_slice()) {
        Some(i) => Some(&events[i]),
        None => None,
    }
}

/// The owner's x-only pubkey (hex) from [`resolve_nametag_owner`].
pub fn resolve_nametag_pubkey(events: &[Event], nametag_id: &str) -> (r: Option<String>)
    ensures
        match r {
            Some(p) => resolve_spec(events@, binding_flags(events@, hash_nametag_spec(nametag_id@))) matches Some(i)
                && p@ == events@[i].pubkey@,
            None => resolve_spec(events@, binding_flags(events@, hash_nametag_spec(nametag_id@))) is None,
        },
{
    match resolve_nametag_owner(events, nametag_id) {
        Some(e) => Some(e.pubkey.clone()),
        None => None,
    }
}


/// A kind-30078 filter with only the given `#t`, `authors` and `limit` constraints.
pub open spec fn app_data_filter(f: Filter, t_tags: Option<Seq<Seq<char>>>, authors: Option<Seq<Seq<char>>>, limit: Option<u32>) -> bool {
    &&& f.kinds matches Some(k) && k@ == seq![kinds::APP_DATA]
    &&& opt_strs(f.t_tags) == t_tags
    &&& opt_strs(f.authors) == authors
    &&& f.limit == limit
    &&& f.ids is None
    &&& f.e_tags is None
    &&& f.p_tags is None
    &&& f.d_tags is None
    &&& f.h_tags is None
    &&& f.since is None
    &&& f.until is None
}

fn one_string(s: String) -> (v: Vec<String>)
    ensures
        strs_view(v@) == seq![s@],
{
    let mut v: Vec<String> = Vec::new();
    v.push(s);
    assert(strs_view(v@) =~= seq![s@]);
    v
}

/// Filter for `nametag → binding` resolution.
pub fn create_nametag_to_pubkey_filter(nametag_id: &str) -> (f: Filter)
    ensures
        app_data_filter(f, Some(seq![hash_nametag_spec(nametag_id@)]), None, None),
{
    Filter::builder().kind(kinds::APP_DATA).t_tags(one_string(hash_nametag(nametag_id))).build()
}

/// Filter for `address → binding` reverse lookup.
pub fn create_address_to_binding_filter(address: &str) -> (f: Filter)
    ensures
        app_data_filter(f, Some(seq![hash_address_spec(address@)]), None, None),
{
    Filter::builder().kind(kinds::APP_DATA).t_tags(one_string(hash_address_for_tag(address))).build()
}

/// Filter for `pubkey → nametags`.
pub fn create_pubkey_to_nametag_filter(nostr_pubkey: &str) -> (f: Filter)
    ensures
        app_data_filter(f, None, Some(seq![nostr_pubkey@]), Some(10u32)),
{
    Filter::builder().kind(kinds::APP_DATA).authors(one_string(String::from_str(nostr_pubkey))).limit(10).build()
}


/// The tags `["t", hash(value)]` and, when `name` is given, `[name, value]`
/// for an optional identity field.
pub open spec fn field_tags(value: Option<String>, name: Option<Seq<char>>) -> Seq<Seq<Seq<char>>> {
    match value {
        None => seq![],
        Some(v) => match name {
            Some(n) => seq![seq!["t"@, hash_address_spec(v@)], seq![n, v@]],
            None => seq![seq!["t"@, hash_address_spec(v@)]],
        },
    }
}

/// The extra tags an identity adds: public key, L1, direct and proxy addresses.
pub open spec fn identity_tags(identity: Option<&IdentityBindingParams>) -> Seq<Seq<Seq<char>>> {
    match identity {
        None => seq![],
        Some(p) => field_tags(p.public_key, Some("pubkey"@)) + field_tags(p.l1_address, Some("l1"@)) + field_tags(
            p.direct_address,
            None,
        ) + field_tags(p.proxy_address, None),
    }
}

/// The tags of a binding event: the nametag hash as `d`, `nametag` and `t`,
/// the UNIP-01 marker, the address and its hash, then the identity's tags.
pub open spec fn binding_tags_spec(nametag: Seq<char>, address: Seq<char>, identity: Option<&IdentityBindingParams>) -> Seq<Seq<Seq<char>>> {
    let h = hash_nametag_spec(nametag);
    seq![
        seq!["d"@, h],
        seq!["L"@, "unicity:nametag"@],
        seq!["nametag"@, h],
        seq!["t"@, h],
        seq!["address"@, address],
        seq!["t"@, hash_address_spec(address)],
    ] + identity_tags(identity)
}

/// A string member when the value is present.
pub open spec fn opt_string_member(key: Seq<char>, value: Option<Seq<char>>) -> Seq<Seq<char>> {
    match value {
        Some(v) => seq![member_key(key) + json_quoted(v)],
        None => seq![],
    }
}

/// The members of a binding event's JSON content, in order.
pub open spec fn binding_members(
    nametag: Seq<char>,
    address: Seq<char>,
    verified: i64,
    identity: Option<&IdentityBindingParams>,
    encrypted_nametag: Option<&str>,
) -> Seq<Seq<char>> {
    seq![
        member_key("nametag_hash"@) + json_quoted(hash_nametag_spec(nametag)),
        member_key("address"@) + json_quoted(address),
        member_key("verified"@) + decimal_int(verified as int),
    ] + match identity {
        None => seq![],
        Some(p) => opt_string_member(
            "encrypted_nametag"@,
            match encrypted_nametag {
                Some(e) => Some(e@),
                None => None,
            },
        ) + seq![member_key("nametag"@) + json_quoted(nametag)] + opt_string_member("public_key"@, opt_view(p.public_key))
            + opt_string_member("l1_address"@, opt_view(p.l1_address)) + opt_string_member(
            "direct_address"@,
            opt_view(p.direct_address),
        ) + opt_string_member("proxy_address"@, opt_view(p.proxy_address)),
    }
}

/// `ev` is the binding event these inputs describe, signed by `signer`.
pub open spec fn is_binding_event_of<S: Signer>(
    ev: Event,
    signer: S,
    nametag: Seq<char>,
    address: Seq<char>,
    verified: i64,
    created_at: i64,
    identity: Option<&IdentityBindingParams>,
    encrypted_nametag: Option<&str>,
) -> bool {
    &&& ev.pubkey@ == signer_pubkey_hex(signer)
    &&& ev.kind == kinds::APP_DATA
    &&& ev.created_at == created_at
    &&& tags_view(ev.tags@) == binding_tags_spec(nametag, address, identity)
    &&& ev.content@ == json_object(binding_members(nametag, address, verified, identity, encrypted_nametag))
    &&& is_valid_event(ev)
}

fn tag_of(name: &str, value: &str) -> (t: Tag)
    ensures
        strs_view(t@) == seq![name@, value@],
{
    let mut t: Tag = Vec::new();
    t.push(String::from_str(name));
    t.push(String::from_str(value));
    assert(strs_view(t@) =~= seq![name@, value@]);
    t
}

fn push_tag(tags: &mut Vec<Tag>, t: Tag)
    ensures
        tags_view(final(tags)@) == tags_view(old(tags)@).push(strs_view(t@)),
{
    let ghost t0 = tags@;
    tags.push(t);
    assert(tags_view(tags@) =~= tags_view(t0).push(strs_view(t@)));
}

fn push_field_tags(tags: &mut Vec<Tag>, value: &Option<String>, name: Option<&str>)
    ensures
        tags_view(final(tags)@) == tags_view(old(tags)@) + field_tags(
            *value,
            match name {
                Some(n) => Some(n@),
                None => None,
            },
        ),
{
    let ghost t0 = tags_view(tags@);
    match value {
        Some(v) => {
            let h = hash_address_for_tag(v.as_str());
            push_tag(tags, tag_of("t", h.as_str()));
            match name {
                Some(n) => {
                    push_tag(tags, tag_of(n, v.as_str()));
                },
                None => {},
            }
        },
        None => {},
    }
    assert(tags_view(tags@) =~= t0 + field_tags(
        *value,
        match name {
            Some(n) => Some(n@),
            None => None,
        },
    ));
}

fn push_opt_member(members: &mut Vec<String>, key: &str, value: Option<&str>)
    ensures
        strs_view(final(members)@) == strs_view(old(members)@) + opt_string_member(
            key@,
            match value {
                Some(v) => Some(v@),
                None => None,
            },
        ),
{
    let ghost m0 = strs_view(members@);
    match value {
        Some(v) => {
            push_member(members, string_member_text(key, v));
        },
        None => {},
    }
    assert(strs_view(members@) =~= m0 + opt_string_member(
        key@,
        match value {
            Some(v) => Some(v@),
            None => None,
        },
    ));
}

fn opt_as_str(o: &Option<String>) -> (r: Option<&str>)
    ensures
        match r {
            Some(v) => opt_view(*o) == Some(v@),
            None => o is None,
        },
{
    match o {
        Some(v) => Some(v.as_str()),
        None => None,
    }
}

fn binding_tags(nametag_id: &str, unicity_address: &str, identity: Option<&IdentityBindingParams>) -> (tags: Vec<Tag>)
    ensures
        tags_view(tags@) == binding_tags_spec(nametag_id@, unicity_address@, identity),
{
    let hashed = hash_nametag(nametag_id);
    let h = hashed.as_str();
    let mut tags: Vec<Tag> = Vec::new();
    assert(tags_view(tags@) =~= Seq::<Seq<Seq<char>>>::empty());
    push_tag(&mut tags, tag_of("d", h));
    push_tag(&mut tags, tag_of("L", NAMETAG_MARKER_LABEL));
    push_tag(&mut tags, tag_of("nametag", h));
    push_tag(&mut tags, tag_of("t", h));
    push_tag(&mut tags, tag_of("address", unicity_address));
    let addr_hash = hash_address_for_tag(unicity_address);
    push_tag(&mut tags, tag_of("t", addr_hash.as_str()));
    match identity {
        Some(id) => {
            push_field_tags(&mut tags, &id.public_key, Some("pubkey"));
            push_field_tags(&mut tags, &id.l1_address, Some("l1"));
            push_field_tags(&mut tags, &id.direct_address, None);
            push_field_tags(&mut tags, &id.proxy_address, None);
        },
        None => {},
    }
    assert(tags_view(tags@) =~= binding_tags_spec(nametag_id@, unicity_address@, identity));
    tags
}

fn binding_content(
    nametag_id: &str,
    unicity_address: &str,
    verified: i64,
    identity: Option<&IdentityBindingParams>,
    encrypted_nametag: Option<&str>,
) -> (content: String)
    ensures
        content@ == json_object(binding_members(nametag_id@, unicity_address@, verified, identity, encrypted_nametag)),
{
    let hashed = hash_nametag(nametag_id);
    let mut members: Vec<String> = Vec::new();
    assert(strs_view(members@) =~= Seq::<Seq<char>>::empty());
    push_member(&mut members, string_member_text("nametag_hash", hashed.as_str()));
    push_member(&mut members, string_member_text("address", unicity_address));
    let mut v = String::new();
    push_key(&mut v, "verified");
    push_decimal_i64(&mut v, verified);
    push_member(&mut members, v);
    match identity {
        Some(id) => {
            push_opt_member(&mut members, "encrypted_nametag", encrypted_nametag);
            push_member(&mut members, string_member_text("nametag", nametag_id));
            push_opt_member(&mut members, "public_key", opt_as_str(&id.public_key));
            push_opt_member(&mut members, "l1_address", opt_as_str(&id.l1_address));
            push_opt_member(&mut members, "direct_address", opt_as_str(&id.direct_address));
            push_opt_member(&mut members, "proxy_address", opt_as_str(&id.proxy_address));
        },
        None => {},
    }
    assert(strs_view(members@) =~= binding_members(nametag_id@, unicity_address@, verified, identity, encrypted_nametag));
    object_of(members.as_slice())
}

/// Build a signed nametag binding event (kind 30078) carrying the UNIP-01
/// single-owner marker. `verified` and `created_at` come from the caller. With
/// an `identity`, the plaintext nametag and the caller-computed
/// `encrypted_nametag` are embedded for public resolution and recovery.
/// Fails on an invalid nametag, or when the signer does not sign.
pub fn create_binding_event<S: Signer>(
    signer: &S,
    nametag_id: &str,
    unicity_address: &str,
    verified: i64,
    created_at: i64,
    identity: Option<&IdentityBindingParams>,
    encrypted_nametag: Option<&str>,
) -> (r: Result<Event>)
    ensures
        !is_valid_nametag_spec(nametag_id@) ==> r is Err && r->Err_0 == Error::Malformed("invalid nametag"),
        is_valid_nametag_spec(nametag_id@) ==> (r is Ok <==> signer.signs(
            id_digest(
                signer_pubkey_hex(*signer),
                created_at,
                kinds::APP_DATA,
                binding_tags_spec(nametag_id@, unicity_address@, identity),
                json_object(binding_members(nametag_id@, unicity_address@, verified, identity, encrypted_nametag)),
            ),
        )),
        r is Ok ==> is_binding_event_of(
            r->Ok_0,
            *signer,
            nametag_id@,
            unicity_address@,
            verified,
            created_at,
            identity,
            encrypted_nametag,
        ),
{
    if !is_valid_nametag(nametag_id) {
        return Err(Error::Malformed("invalid nametag"));
    }
    let tags = binding_tags(nametag_id, unicity_address, identity);
    let content = binding_content(nametag_id, unicity_address, verified, identity, encrypted_nametag);
    Event::create(signer, kinds::APP_DATA, tags, content, created_at)
}


/// The resolved owner is the current binding of its author, and it counts.
pub proof fn lemma_owner_is_current(evs: Seq<Event>, inc: Seq<bool>)
    ensures
        resolve_spec(evs, inc) matches Some(i) ==> is_current(evs, inc, i) && counted(evs, inc, i),
{
    if any_marked(evs, inc) {
        if exists|i: int| sole_marked(evs, inc, i) {
            let i = choose|i: int| sole_marked(evs, inc, i);
        }
    } else if exists|i: int| legacy_winner(evs, inc, i) {
        let i = choose|i: int| legacy_winner(evs, inc, i);
    }
}

/// When two different authors' current bindings both carry the marker, the
/// owner is ambiguous and nothing is resolved.
pub proof fn lemma_two_marked_authors_ambiguous(evs: Seq<Event>, inc: Seq<bool>, i: int, j: int)
    requires
        is_current(evs, inc, i),
        is_current(evs, inc, j),
        is_marked(evs[i]),
        is_marked(evs[j]),
        evs[i].pubkey@ != evs[j].pubkey@,
    ensures
        resolve_spec(evs, inc) is None,
{
    assert(any_marked(evs, inc));
    if exists|k: int| sole_marked(evs, inc, k) {
        let k = choose|k: int| sole_marked(evs, inc, k);
        assert(i == k && j == k);
    }
}

/// A sole marked author owns the nametag, whatever the timestamps and first
/// sightings of the unmarked authors.
pub proof fn lemma_sole_marked_wins(evs: Seq<Event>, inc: Seq<bool>, i: int)
    requires
        is_current(evs, inc, i),
        is_marked(evs[i]),
        forall|j: int| is_current(evs, inc, j) && j != i ==> !is_marked(#[trigger] evs[j]),
    ensures
        resolve_spec(evs, inc) == Some(i),
{
    assert(sole_marked(evs, inc, i));
    assert(any_marked(evs, inc));
    let k = choose|k: int| sole_marked(evs, inc, k);
    assert(k == i);
}

/// Without markers, the author seen first owns the nametag (ties go to the
/// smaller pubkey), and what is returned is that author's current binding.
pub proof fn lemma_first_seen_wins(evs: Seq<Event>, inc: Seq<bool>, i: int)
    requires
        is_current(evs, inc, i),
        forall|j: int| is_current(evs, inc, j) ==> !is_marked(#[trigger] evs[j]),
        forall|j: int| #[trigger] is_current(evs, inc, j) && j != i ==> ranks_before(evs, inc, i, j),
    ensures
        resolve_spec(evs, inc) == Some(i),
{
    assert(!any_marked(evs, inc));
    assert(legacy_winner(evs, inc, i));
    lemma_legacy_winner_unique(evs, inc, i, choose|k: int| legacy_winner(evs, inc, k));
}

/// The single-owner marker that every created binding event carries.
pub proof fn lemma_binding_tags_marked(nametag: Seq<char>, address: Seq<char>, identity: Option<&IdentityBindingParams>)
    ensures
        has_marker_spec(binding_tags_spec(nametag, address, identity)),
        tag_value_spec(binding_tags_spec(nametag, address, identity), seq!['d']) == Some(hash_nametag_spec(nametag)),
{
    reveal_strlit("L");
    reveal_strlit("d");
    reveal_strlit("unicity:nametag");
    assert("L"@ =~= seq!['L']);
    assert("d"@ =~= seq!['d']);
    assert("unicity:nametag"@ =~= marker_label());
    let tags = binding_tags_spec(nametag, address, identity);
    assert(tags[1].len() >= 2 && tags[1][0] == seq!['L'] && tags[1][1] == marker_label());
    assert(tags[0][0] == seq!['d']);
}

/// The nametag lookup filter finds every binding event created for that nametag.
pub proof fn lemma_nametag_filter_finds_binding(
    f: Filter,
    ev: Event,
    nametag: Seq<char>,
    address: Seq<char>,
    identity: Option<&IdentityBindingParams>,
)
    requires
        app_data_filter(f, Some(seq![hash_nametag_spec(nametag)]), None, None),
        ev.kind == kinds::APP_DATA,
        tags_view(ev.tags@) == binding_tags_spec(nametag, address, identity),
    ensures
        filter_matches(f, ev),
{
    reveal_strlit("t");
    assert("t"@ =~= seq!['t']);
    let tags = tags_view(ev.tags@);
    let vals = seq![hash_nametag_spec(nametag)];
    assert(tags[3].len() > 1 && tags[3][0] == seq!['t'] && vals.contains(tags[3][1])) by {
        assert(vals[0] == tags[3][1]);
    }
    assert(f.kinds->0@.contains(ev.kind)) by {
        assert(f.kinds->0@[0] == ev.kind);
    }
}

/// The address lookup filter finds every binding event created for that address.
pub proof fn lemma_address_filter_finds_binding(
    f: Filter,
    ev: Event,
    nametag: Seq<char>,
    address: Seq<char>,
    identity: Option<&IdentityBindingParams>,
)
    requires
        app_data_filter(f, Some(seq![hash_address_spec(address)]), None, None),
        ev.kind == kinds::APP_DATA,
        tags_view(ev.tags@) == binding_tags_spec(nametag, address, identity),
    ensures
        filter_matches(f, ev),
{
    reveal_strlit("t");
    assert("t"@ =~= seq!['t']);
    let tags = tags_view(ev.tags@);
    let vals = seq![hash_address_spec(address)];
    assert(tags[5].len() > 1 && tags[5][0] == seq!['t'] && vals.contains(tags[5][1])) by {
        assert(vals[0] == tags[5][1]);
    }
    assert(f.kinds->0@.contains(ev.kind)) by {
        assert(f.kinds->0@[0] == ev.kind);
    }
}

/// The pubkey lookup filter finds every binding event by that author.
pub proof fn lemma_pubkey_filter_finds_binding(f: Filter, ev: Event)
    requires
        app_data_filter(f, None, Some(seq![ev.pubkey@]), Some(10u32)),
        ev.kind == kinds::APP_DATA,
    ensures
        filter_matches(f, ev),
{
    let vals = seq![ev.pubkey@];
    assert(vals.contains(ev.pubkey@)) by {
        assert(vals[0] == ev.pubkey@);
    }
    assert(f.kinds->0@.contains(ev.kind)) by {
        assert(f.kinds->0@[0] == ev.kind);
    }
}

} // verus!
