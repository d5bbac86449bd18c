//! What holds of every answer of the timeline.
use vstd::prelude::*;

use crate::image::Image;
use crate::rows::{EventRowView, PinRowView, SessionRowView};

verus! {

broadcast use vstd::string::group_string_axioms;

/// Whether a text has no character that stands for others in a pattern.
pub open spec fn is_literal(p: Seq<char>) -> bool {
    forall|k: int| 0 <= k < p.len() ==> (#[trigger] p[k]) != '%' && p[k] != '_'
}

/// `%` matches any text.
proof fn lemma_like_any(s: Seq<char>)
    ensures
        crate::text::like(seq!['%'], s),
    decreases s.len(),
{
    let p = seq!['%'];
    assert(p.drop_first() =~= Seq::<char>::empty());
    assert(s.len() == 0 ==> crate::text::like(Seq::<char>::empty(), s));
    if s.len() > 0 {
        lemma_like_any(s.drop_first());
    }
}

/// A plain text with `%` behind it matches what begins with that text in any case.
proof fn lemma_like_beginning(p: Seq<char>, s: Seq<char>)
    requires
        is_literal(p),
    ensures
        crate::text::like(p + seq!['%'], s) <==> crate::text::occurs_at(
            crate::text::lower(s),
            crate::text::lower(p),
            0,
        ),
    decreases p.len(),
{
    let whole = crate::text::lower(s);
    let part = crate::text::lower(p);
    let pattern = p + seq!['%'];
    if p.len() == 0 {
        assert(pattern =~= seq!['%']);
        lemma_like_any(s);
        assert(whole.subrange(0, 0) =~= part);
    } else {
        assert(pattern[0] == p[0]);
        assert(pattern.drop_first() =~= p.drop_first() + seq!['%']);
        if s.len() > 0 {
            let q = p.drop_first();
            let t = s.drop_first();
            assert forall|k: int| 0 <= k < q.len() implies (#[trigger] q[k]) != '%' && q[k]
                != '_' by {
                assert(q[k] == p[k + 1]);
            }
            lemma_like_beginning(q, t);
            let a = whole.subrange(0, part.len() as int);
            let b = crate::text::lower(t).subrange(0, part.len() - 1);
            if crate::text::like(pattern, s) {
                assert(b =~= crate::text::lower(q));
                assert(a =~= part) by {
                    assert forall|k: int| 0 <= k < part.len() implies a[k] == part[k] by {
                        if k > 0 {
                            assert(b[k - 1] == crate::text::lower(q)[k - 1]);
                        }
                    }
                }
            }
            if crate::text::occurs_at(whole, part, 0) {
                assert(a[0] == part[0]);
                assert(b =~= crate::text::lower(q)) by {
                    assert forall|k: int| 0 <= k < b.len() implies b[k] == crate::text::lower(
                        q,
                    )[k] by {
                        assert(a[k + 1] == part[k + 1]);
                    }
                }
            }
        }
    }
}

/// A pattern that is a plain text between two `%` matches the texts that contain it, without
/// regard to the case of ASCII letters.
pub proof fn law_like_means_containing(p: Seq<char>, s: Seq<char>)
    requires
        is_literal(p),
    ensures
        crate::text::like("%"@ + p + "%"@, s) <==> crate::text::has_part(
            crate::text::lower(s),
            crate::text::lower(p),
        ),
    decreases s.len(),
{
    reveal_strlit("%");
    let pattern = "%"@ + p + "%"@;
    let whole = crate::text::lower(s);
    let part = crate::text::lower(p);
    assert("%"@ =~= seq!['%']);
    assert(pattern[0] == '%');
    assert(pattern.drop_first() =~= p + seq!['%']);
    lemma_like_beginning(p, s);
    if s.len() > 0 {
        let t = s.drop_first();
        let rest = crate::text::lower(t);
        law_like_means_containing(p, t);
        assert(rest =~= whole.drop_first());
        assert forall|at: int| 0 <= at implies crate::text::occurs_at(rest, part, at)
            == #[trigger] crate::text::occurs_at(whole, part, at + 1) by {
            if at + part.len() <= rest.len() {
                assert(rest.subrange(at, at + part.len()) =~= whole.subrange(
                    at + 1,
                    at + 1 + part.len(),
                ));
            }
        }
        if crate::text::has_part(rest, part) {
            let at = choose|at: int| #[trigger] crate::text::occurs_at(rest, part, at);
            assert(crate::text::occurs_at(whole, part, at + 1));
        }
        if crate::text::has_part(whole, part) {
            let at = choose|at: int| #[trigger] crate::text::occurs_at(whole, part, at);
            if at > 0 {
                assert(crate::text::occurs_at(whole, part, (at - 1) + 1));
                assert(crate::text::occurs_at(rest, part, at - 1));
            }
        }
    } else if crate::text::has_part(whole, part) {
        let at = choose|at: int| #[trigger] crate::text::occurs_at(whole, part, at);
        assert(at == 0);
    }
}

/// Without a filter the newest events are listed.
pub proof fn law_no_filter_lists_the_newest(i: Image, limit: nat)
    ensures
        super::filtered(i, None, None, None, limit) == super::recent(i, limit),
{
    crate::store::collect::lemma_filter_all(super::rows(i.events), super::passes(None, None, None));
}

/// Whether an event is one that a question selects: it stands in the timeline, has the agent that
/// is asked for, a path that contains the text that is asked for in any case, and is not older
/// than what is asked for.
pub open spec fn is_asked_for(
    i: Image,
    agent: Option<Seq<char>>,
    path_substring: Option<Seq<char>>,
    since_ns: Option<i64>,
    e: EventRowView,
) -> bool {
    &&& super::rows(i.events).contains(e)
    &&& agent matches Some(a) ==> e.attribution == a
    &&& path_substring matches Some(p) ==> crate::text::has_part(
        crate::text::lower(e.path),
        crate::text::lower(p),
    )
    &&& since_ns matches Some(t) ==> e.ts_ns >= t
}

/// Filtering keeps increasing numbers increasing.
proof fn lemma_filter_increasing(s: Seq<EventRowView>, f: spec_fn(EventRowView) -> bool)
    requires
        forall|a: int, b: int|
            0 <= a < b < s.len() ==> (#[trigger] s[a]).id < (#[trigger] s[b]).id,
    ensures
        forall|a: int, b: int|
            0 <= a < b < s.filter(f).len() ==> (#[trigger] s.filter(f)[a]).id < (
            #[trigger] s.filter(f)[b]).id,
    decreases s.len(),
{
    reveal(Seq::filter);
    if s.len() > 0 {
        let t = s.drop_last();
        assert forall|a: int, b: int| 0 <= a < b < t.len() implies (#[trigger] t[a]).id < (
        #[trigger] t[b]).id by {
            assert(s[a].id < s[b].id);
        }
        lemma_filter_increasing(t, f);
        let u = t.filter(f);
        assert forall|a: int| 0 <= a < u.len() implies (#[trigger] u[a]).id < s.last().id by {
            assert(u.contains(u[a]));
            t.lemma_filter_contains_rev(f, u[a]);
            let k = choose|k: int| 0 <= k < t.len() && t[k] == u[a];
            assert(s[k].id < s[s.len() - 1].id);
        }
    }
}

/// A filtered list holds the newest of the events that are asked for and no other: by decreasing
/// number, as many as there are up to the limit, and none that is left out is newer than one that
/// is listed.
pub proof fn law_filter_lists_the_newest_asked_for(
    i: Image,
    agent: Option<Seq<char>>,
    path_substring: Option<Seq<char>>,
    since_ns: Option<i64>,
    limit: nat,
)
    requires
        crate::store::sound(i),
        path_substring matches Some(p) ==> is_literal(p),
    ensures
        ({
            let r = super::filtered(i, agent, path_substring, since_ns, limit);
            let all = super::filtered(i, agent, path_substring, since_ns, i.events.len());
            &&& forall|e: EventRowView| #[trigger]
                all.contains(e) <==> is_asked_for(i, agent, path_substring, since_ns, e)
            &&& forall|a: int, b: int|
                0 <= a < b < all.len() ==> (#[trigger] all[a]).id > (#[trigger] all[b]).id
            &&& r.len() == if limit < all.len() {
                limit
            } else {
                all.len()
            }
            &&& r == all.take(r.len() as int)
        }),
{
    let s = super::rows(i.events);
    let f = super::passes(agent, path_substring, since_ns);
    let r = super::filtered(i, agent, path_substring, since_ns, limit);
    let all = super::filtered(i, agent, path_substring, since_ns, i.events.len());
    let kept = s.filter(f);
    s.lemma_filter_len(f);
    assert(all =~= kept.reverse());
    assert(r =~= all.take(r.len() as int));
    assert forall|a: int, b: int| 0 <= a < b < s.len() implies (#[trigger] s[a]).id < (
    #[trigger] s[b]).id by {
        assert(i.events[a].row.id < i.events[b].row.id);
    }
    lemma_filter_increasing(s, f);
    assert forall|a: int, b: int| 0 <= a < b < all.len() implies (#[trigger] all[a]).id > (
    #[trigger] all[b]).id by {
        let n = kept.len() as int;
        assert(kept[n - 1 - b].id < kept[n - 1 - a].id);
    }
    assert forall|e: EventRowView| #[trigger] all.contains(e) <==> is_asked_for(
        i,
        agent,
        path_substring,
        since_ns,
        e,
    ) by {
        if let Some(p) = path_substring {
            law_like_means_containing(p, e.path);
        }
        if all.contains(e) {
            let k = choose|k: int| 0 <= k < all.len() && all[k] == e;
            let m = kept.len() - 1 - k;
            assert(kept[m] == e);
            s.lemma_filter_pred(f, m);
            assert(kept.contains(e));
            s.lemma_filter_contains_rev(f, e);
        }
        if is_asked_for(i, agent, path_substring, since_ns, e) {
            let k = choose|k: int| 0 <= k < s.len() && s[k] == e;
            assert(f(s[k]));
            s.lemma_filter_contains(f, k);
            let m = choose|m: int| 0 <= m < kept.len() && kept[m] == e;
            assert(all[kept.len() - 1 - m] == e);
        }
    }
}

// --- single events -----------------------------------------------------------------------------

/// Whether the event at a place of the timeline is one that a user or an agent caused: neither a
/// trace of a restore nor one of the first scan.
pub open spec fn is_users(i: Image, k: int) -> bool {
    &&& 0 <= k < i.events.len()
    &&& i.events[k].row.attribution != "agent-undo-restore"@
    &&& i.events[k].row.attribution != "pre-restore"@
    &&& i.events[k].row.attribution != "initial-scan"@
}

/// Whether the event at a place of the timeline belongs to a session: it carries the id of the
/// session and is no trace of a restore.
pub open spec fn is_of_session(i: Image, id: Seq<char>, k: int) -> bool {
    &&& 0 <= k < i.events.len()
    &&& i.events[k].row.session_id == Some(id)
    &&& i.events[k].row.attribution != "agent-undo-restore"@
    &&& i.events[k].row.attribution != "pre-restore"@
}

/// Whether an event is one of a session.
pub open spec fn stands_for_session(i: Image, id: Seq<char>, e: EventRowView) -> bool {
    exists|k: int| #[trigger] is_of_session(i, id, k) && i.events[k].row == e
}

/// The newest events are the last ones of the timeline, the last first: as many as were asked for,
/// or all there are.
pub proof fn law_recent_are_the_last(i: Image, limit: nat)
    ensures
        ({
            let r = super::recent(i, limit);
            let n = i.events.len();
            &&& r.len() == if limit < n {
                limit
            } else {
                n
            }
            &&& forall|k: int| 0 <= k < r.len() ==> (#[trigger] r[k]) == i.events[n - 1 - k].row
        }),
{
}

/// An event is found by its number, and nothing is found under a number that no event has.
pub proof fn law_event_is_found_by_number(i: Image, id: i64)
    requires
        crate::store::sound(i),
    ensures
        forall|k: int|
            0 <= k < i.events.len() && (#[trigger] i.events[k]).row.id == id
                ==> super::find_event(i, id) == Some(i.events[k].row),
        super::find_event(i, id) matches Some(e) ==> e.id == id && exists|k: int|
            0 <= k < i.events.len() && (#[trigger] i.events[k]).row == e,
{
    let s = super::rows(i.events);
    let f = super::with_id(id);
    let t = s.filter(f);
    if t.len() > 0 {
        s.lemma_filter_pred(f, 0);
        assert(t.contains(t[0]));
        s.lemma_filter_contains_rev(f, t[0]);
        let m = choose|m: int| 0 <= m < s.len() && s[m] == t[0];
        assert(i.events[m].row == t[0]);
        assert forall|k: int|
            0 <= k < i.events.len() && (#[trigger] i.events[k]).row.id == id implies i.events[k].row
            == t[0] by {
            if k < m {
                assert(i.events[k].row.id < i.events[m].row.id);
            } else if m < k {
                assert(i.events[m].row.id < i.events[k].row.id);
            }
        }
    }
    assert forall|k: int| 0 <= k < i.events.len() && (#[trigger] i.events[k]).row.id
        == id implies super::find_event(i, id) == Some(i.events[k].row) by {
        assert(s[k] == i.events[k].row);
        s.lemma_filter_contains(f, k);
    }
}

/// The last item that a filter leaves is the last one in the list that it lets pass.
proof fn lemma_last_of_filter<T>(s: Seq<T>, f: spec_fn(T) -> bool)
    ensures
        match super::last_of(s.filter(f)) {
            Some(x) => exists|m: int|
                0 <= m < s.len() && s[m] == x && f(x) && forall|k: int|
                    m < k < s.len() ==> !f(#[trigger] s[k]),
            None => forall|k: int| 0 <= k < s.len() ==> !f(#[trigger] s[k]),
        },
    decreases s.len(),
{
    reveal(Seq::filter);
    if s.len() > 0 {
        let t = s.drop_last();
        let n = s.len() - 1;
        lemma_last_of_filter(t, f);
        if f(s.last()) {
            assert(s[n] == s.last());
        } else {
            match super::last_of(t.filter(f)) {
                Some(x) => {
                    let m = choose|m: int|
                        0 <= m < t.len() && t[m] == x && f(x) && forall|k: int|
                            m < k < t.len() ==> !f(#[trigger] t[k]);
                    assert forall|k: int| m < k < s.len() implies !f(#[trigger] s[k]) by {
                        if k < n {
                            assert(t[k] == s[k]);
                        }
                    }
                    assert(s[m] == x);
                },
                None => {
                    assert forall|k: int| 0 <= k < s.len() implies !f(#[trigger] s[k]) by {
                        if k < n {
                            assert(t[k] == s[k]);
                        }
                    }
                },
            }
        }
    }
}

/// The latest change to a file is the newest event at its path that a user or an agent caused, a
/// deletion like any other; there is one where there is any such event.
pub proof fn law_latest_change_to_a_file(i: Image, path: Seq<char>)
    requires
        crate::store::sound(i),
    ensures
        super::latest_user_at(i, path) is Some <==> exists|k: int|
            is_users(i, k) && (#[trigger] i.events[k]).row.path == path,
        super::latest_user_at(i, path) matches Some(e) ==> {
            &&& exists|m: int|
                is_users(i, m) && (#[trigger] i.events[m]).row.path == path && i.events[m].row == e
            &&& forall|k: int|
                is_users(i, k) && (#[trigger] i.events[k]).row.path == path ==> i.events[k].row.id
                    <= e.id
        },
{
    let s = super::rows(i.events);
    let f = super::by_user_at(path);
    lemma_last_of_filter(s, f);
    assert forall|k: int| 0 <= k < s.len() implies f(#[trigger] s[k]) == (is_users(i, k)
        && i.events[k].row.path == path) by {
        assert(s[k] == i.events[k].row);
    }
    match super::latest_user_at(i, path) {
        Some(e) => {
            let m = choose|m: int|
                0 <= m < s.len() && s[m] == e && f(e) && forall|k: int|
                    m < k < s.len() ==> !f(#[trigger] s[k]);
            assert(is_users(i, m) && i.events[m].row.path == path);
            assert forall|k: int|
                is_users(i, k) && (#[trigger] i.events[k]).row.path
                    == path implies i.events[k].row.id <= e.id by {
                assert(f(s[k]));
                if k < m {
                    assert(i.events[k].row.id < i.events[m].row.id);
                }
            }
        },
        None => {
            assert forall|k: int| is_users(i, k) implies (#[trigger] i.events[k]).row.path != path by {
                assert(!f(s[k]));
            }
        },
    }
}

/// The latest change is the newest event that a user or an agent caused; there is one where there
/// is any such event.
pub proof fn law_latest_change(i: Image)
    requires
        crate::store::sound(i),
    ensures
        super::latest_user(i) is Some <==> exists|k: int| #[trigger] is_users(i, k),
        super::latest_user(i) matches Some(e) ==> {
            &&& exists|m: int| #[trigger] is_users(i, m) && i.events[m].row == e
            &&& forall|k: int| #[trigger] is_users(i, k) ==> i.events[k].row.id <= e.id
        },
{
    let s = super::rows(i.events);
    let f = super::by_user();
    lemma_last_of_filter(s, f);
    assert forall|k: int| 0 <= k < s.len() implies f(#[trigger] s[k]) == is_users(i, k) by {
        assert(s[k] == i.events[k].row);
    }
    match super::latest_user(i) {
        Some(e) => {
            let m = choose|m: int|
                0 <= m < s.len() && s[m] == e && f(e) && forall|k: int|
                    m < k < s.len() ==> !f(#[trigger] s[k]);
            assert(is_users(i, m));
            assert forall|k: int| #[trigger] is_users(i, k) implies i.events[k].row.id <= e.id by {
                assert(f(s[k]));
                if k < m {
                    assert(i.events[k].row.id < i.events[m].row.id);
                }
            }
        },
        None => {
            assert forall|k: int| !(#[trigger] is_users(i, k)) by {
                if 0 <= k < s.len() {
                    assert(!f(s[k]));
                }
            }
        },
    }
}

// --- the events of a session -------------------------------------------------------------------

/// Sorting a list without repetitions gives one without repetitions that has the same items.
proof fn lemma_sorted_items<T>(s: Seq<T>, key: spec_fn(T) -> int)
    ensures
        forall|x: T| #[trigger] super::sorted(s, key).contains(x) <==> s.contains(x),
        s.no_duplicates() ==> super::sorted(s, key).no_duplicates(),
{
    broadcast use vstd::seq_lib::group_to_multiset_ensures;

    super::lemma_sorted(s, key);
    let t = super::sorted(s, key);
    assert forall|x: T| #[trigger] t.contains(x) <==> s.contains(x) by {
        assert(t.contains(x) <==> t.to_multiset().count(x) > 0);
        assert(s.contains(x) <==> s.to_multiset().count(x) > 0);
    }
    if s.no_duplicates() {
        s.lemma_multiset_has_no_duplicates();
        t.lemma_multiset_has_no_duplicates_conv();
    }
}

/// The events of a session are all events of the timeline that carry its id and are no traces of a
/// restore, each once, and no others; they come in the order of their time stamps, and those of
/// one time stamp in the order in which they were recorded.
pub proof fn law_session_events_are_complete(i: Image, id: Seq<char>)
    requires
        crate::store::sound(i),
    ensures
        forall|k: int|
            0 <= k < i.events.len() ==> (super::session_events(i, id).contains(
                (#[trigger] i.events[k]).row,
            ) <==> is_of_session(i, id, k)),
        forall|n: int|
            #![trigger super::session_events(i, id)[n]]
            0 <= n < super::session_events(i, id).len() ==> stands_for_session(
                i,
                id,
                super::session_events(i, id)[n],
            ),
        super::session_events(i, id).no_duplicates(),
        forall|a: int, b: int|
            0 <= a < b < super::session_events(i, id).len() ==> {
                let x = #[trigger] super::session_events(i, id)[a];
                let y = #[trigger] super::session_events(i, id)[b];
                comes_first(x, y)
            },
{
    let s = super::rows(i.events);
    let f = super::in_session(id);
    let own = s.filter(f);
    let key = |e: EventRowView| e.ts_ns as int;
    let t = super::session_events(i, id);
    assert forall|a: int, b: int| 0 <= a < b < s.len() implies (#[trigger] s[a]).id < (
    #[trigger] s[b]).id by {
        assert(i.events[a].row.id < i.events[b].row.id);
    }
    lemma_filter_increasing(s, f);
    assert(own.no_duplicates()) by {
        assert forall|a: int, b: int| 0 <= a < own.len() && 0 <= b < own.len() && a
            != b implies own[a] != own[b] by {
            if a < b {
                assert(own[a].id < own[b].id);
            } else {
                assert(own[b].id < own[a].id);
            }
        }
    }
    lemma_sorted_items(own, key);
    lemma_sorted_by_both(own);
    assert forall|k: int| 0 <= k < i.events.len() implies (t.contains((#[trigger] i.events[k]).row)
        <==> is_of_session(i, id, k)) by {
        let e = i.events[k].row;
        assert(s[k] == e);
        if is_of_session(i, id, k) {
            s.lemma_filter_contains(f, k);
        }
        if own.contains(e) {
            let n = choose|n: int| 0 <= n < own.len() && own[n] == e;
            s.lemma_filter_pred(f, n);
        }
    }
    assert forall|n: int| #![trigger t[n]] 0 <= n < t.len() implies stands_for_session(
        i,
        id,
        t[n],
    ) by {
        assert(t.contains(t[n]));
        assert(own.contains(t[n]));
        s.lemma_filter_contains_rev(f, t[n]);
        let k = choose|k: int| 0 <= k < s.len() && s[k] == t[n];
        assert(t.contains(i.events[k].row));
        assert(is_of_session(i, id, k));
    }
}

/// Whether one event comes before another: it has the smaller time stamp, or the smaller number
/// where both have one time stamp.
pub open spec fn comes_first(x: EventRowView, y: EventRowView) -> bool {
    x.ts_ns < y.ts_ns || (x.ts_ns == y.ts_ns && x.id < y.id)
}

/// Sorting by time what increases in number leaves what has one time stamp in its order.
proof fn lemma_sorted_by_both(s: Seq<EventRowView>)
    requires
        forall|a: int, b: int|
            0 <= a < b < s.len() ==> (#[trigger] s[a]).id < (#[trigger] s[b]).id,
    ensures
        ({
            let t = super::sorted(s, |e: EventRowView| e.ts_ns as int);
            forall|a: int, b: int|
                0 <= a < b < t.len() ==> comes_first(#[trigger] t[a], #[trigger] t[b])
        }),
    decreases s.len(),
{
    let key = |e: EventRowView| e.ts_ns as int;
    if s.len() > 0 {
        let fewer = s.drop_last();
        let x = s.last();
        assert forall|a: int, b: int| 0 <= a < b < fewer.len() implies (#[trigger] fewer[a]).id < (
        #[trigger] fewer[b]).id by {
            assert(s[a].id < s[b].id);
        }
        lemma_sorted_by_both(fewer);
        let t = super::sorted(fewer, key);
        assert forall|a: int| 0 <= a < t.len() implies (#[trigger] t[a]).id < x.id by {
            lemma_sorted_items(fewer, key);
            assert(t.contains(t[a]));
            let k = choose|k: int| 0 <= k < fewer.len() && fewer[k] == t[a];
            assert(s[k].id < s[s.len() - 1].id);
        }
        lemma_insert_by_both(t, x);
    }
}

proof fn lemma_insert_by_both(t: Seq<EventRowView>, x: EventRowView)
    requires
        forall|a: int, b: int|
            0 <= a < b < t.len() ==> comes_first(#[trigger] t[a], #[trigger] t[b]),
        forall|a: int| 0 <= a < t.len() ==> (#[trigger] t[a]).id < x.id,
    ensures
        ({
            let u = super::insert_sorted(t, x, |e: EventRowView| e.ts_ns as int);
            &&& forall|a: int, b: int|
                0 <= a < b < u.len() ==> comes_first(#[trigger] u[a], #[trigger] u[b])
            &&& forall|a: int| 0 <= a < u.len() ==> (#[trigger] u[a]) == x || t.contains(u[a])
        }),
    decreases t.len(),
{
    let key = |e: EventRowView| e.ts_ns as int;
    let u = super::insert_sorted(t, x, key);
    if t.len() == 0 || key(t.last()) <= key(x) {
        assert(u =~= t.push(x));
        assert forall|a: int| 0 <= a < t.len() implies comes_first(#[trigger] t[a], x) by {
            if a < t.len() - 1 {
                assert(comes_first(t[a], t[t.len() - 1]));
            }
        }
        assert forall|a: int| 0 <= a < u.len() implies (#[trigger] u[a]) == x || t.contains(
            u[a],
        ) by {
            if a < t.len() {
                assert(t[a] == u[a]);
            }
        }
    } else {
        let fewer = t.drop_last();
        assert forall|a: int| 0 <= a < fewer.len() implies (#[trigger] fewer[a]).id < x.id by {
            assert(fewer[a] == t[a]);
        }
        assert forall|a: int, b: int| 0 <= a < b < fewer.len() implies comes_first(
            #[trigger] fewer[a],
            #[trigger] fewer[b],
        ) by {
            assert(comes_first(t[a], t[b]));
        }
        lemma_insert_by_both(fewer, x);
        let v = super::insert_sorted(fewer, x, key);
        assert(u =~= v.push(t.last()));
        assert forall|a: int| 0 <= a < v.len() implies comes_first(#[trigger] v[a], t.last()) by {
            if v[a] != x {
                let k = choose|k: int| 0 <= k < fewer.len() && fewer[k] == v[a];
                assert(comes_first(t[k], t[t.len() - 1]));
            }
        }
        assert forall|a: int| 0 <= a < u.len() implies (#[trigger] u[a]) == x || t.contains(
            u[a],
        ) by {
            if a < v.len() {
                if v[a] != x {
                    let k = choose|k: int| 0 <= k < fewer.len() && fewer[k] == v[a];
                    assert(t[k] == u[a]);
                }
            } else {
                assert(t[t.len() - 1] == u[a]);
            }
        }
    }
}

// --- sessions and pins -------------------------------------------------------------------------

/// The sessions are listed all, each once, the one that was started last first.
pub proof fn law_sessions_are_listed_newest_first(i: Image)
    requires
        crate::store::sound(i),
    ensures
        ({
            let r = super::sessions_newest(i);
            &&& r.len() == i.sessions.len()
            &&& r.to_multiset() == i.sessions.to_multiset()
            &&& forall|k: int|
                0 <= k < i.sessions.len() ==> r.contains(#[trigger] i.sessions[k])
            &&& forall|a: int, b: int|
                0 <= a < b < r.len() ==> (#[trigger] r[a]).started_at_ns >= (
                #[trigger] r[b]).started_at_ns
            &&& super::first_of(r) is Some <==> i.sessions.len() > 0
            &&& super::first_of(r) matches Some(s) ==> i.sessions.contains(s) && forall|k: int|
                0 <= k < i.sessions.len() ==> (#[trigger] i.sessions[k]).started_at_ns
                    <= s.started_at_ns
        }),
{
    let key = |s: SessionRowView| -(s.started_at_ns as int);
    let r = super::sessions_newest(i);
    super::lemma_sorted(i.sessions, key);
    lemma_sorted_items(i.sessions, key);
    assert forall|a: int, b: int| 0 <= a < b < r.len() implies (#[trigger] r[a]).started_at_ns >= (
    #[trigger] r[b]).started_at_ns by {
        assert(key(r[a]) <= key(r[b]));
    }
    assert forall|k: int| 0 <= k < i.sessions.len() implies r.contains(#[trigger] i.sessions[k]) by {
        assert(i.sessions.contains(i.sessions[k]));
    }
    if r.len() > 0 {
        assert(r.contains(r[0]));
        assert forall|k: int| 0 <= k < i.sessions.len() implies (
        #[trigger] i.sessions[k]).started_at_ns <= r[0].started_at_ns by {
            let n = choose|n: int| 0 <= n < r.len() && r[n] == i.sessions[k];
            assert(n == 0 || r[0].started_at_ns >= r[n].started_at_ns);
        }
    }
}

/// The first items of a list are as many as were asked for, or all there are.
pub proof fn law_at_most_takes_the_first<T>(s: Seq<T>, n: nat)
    ensures
        super::at_most(s, n).len() == if n < s.len() {
            n
        } else {
            s.len()
        },
        forall|k: int|
            0 <= k < super::at_most(s, n).len() ==> (#[trigger] super::at_most(s, n)[k]) == s[k],
{
}

/// The pins are listed all, each once, the one that was made last first.
pub proof fn law_pins_are_listed_newest_first(i: Image)
    ensures
        ({
            let r = super::pins_newest(i);
            &&& r.len() == i.pins.len()
            &&& r.to_multiset() == i.pins.to_multiset()
            &&& forall|k: int| 0 <= k < i.pins.len() ==> r.contains(#[trigger] i.pins[k])
            &&& forall|a: int, b: int|
                0 <= a < b < r.len() ==> (#[trigger] r[a]).created_at_ns >= (
                #[trigger] r[b]).created_at_ns
            &&& super::first_of(r) is Some <==> i.pins.len() > 0
            &&& super::first_of(r) matches Some(p) ==> i.pins.contains(p) && forall|k: int|
                0 <= k < i.pins.len() ==> (#[trigger] i.pins[k]).created_at_ns <= p.created_at_ns
        }),
{
    let key = |p: PinRowView| -(p.created_at_ns as int);
    let r = super::pins_newest(i);
    super::lemma_sorted(i.pins, key);
    lemma_sorted_items(i.pins, key);
    assert forall|a: int, b: int| 0 <= a < b < r.len() implies (#[trigger] r[a]).created_at_ns >= (
    #[trigger] r[b]).created_at_ns by {
        assert(key(r[a]) <= key(r[b]));
    }
    assert forall|k: int| 0 <= k < i.pins.len() implies r.contains(#[trigger] i.pins[k]) by {
        assert(i.pins.contains(i.pins[k]));
    }
    if r.len() > 0 {
        assert(r.contains(r[0]));
        assert forall|k: int| 0 <= k < i.pins.len() implies (#[trigger] i.pins[k]).created_at_ns
            <= r[0].created_at_ns by {
            let n = choose|n: int| 0 <= n < r.len() && r[n] == i.pins[k];
            assert(n == 0 || r[0].created_at_ns >= r[n].created_at_ns);
        }
    }
}

/// A label stands for the pin with that label that was made last; there is one where any pin has
/// the label.
pub proof fn law_label_means_the_newest_pin(i: Image, label: Seq<char>)
    ensures
        super::find_pin(i, label) is Some <==> exists|k: int|
            0 <= k < i.pins.len() && (#[trigger] i.pins[k]).label == label,
        super::find_pin(i, label) matches Some(p) ==> {
            &&& p.label == label
            &&& i.pins.contains(p)
            &&& forall|k: int|
                0 <= k < i.pins.len() && (#[trigger] i.pins[k]).label == label
                    ==> i.pins[k].created_at_ns <= p.created_at_ns
        },
{
    let key = |p: PinRowView| -(p.created_at_ns as int);
    let f = super::labeled(label);
    let own = i.pins.filter(f);
    let r = super::sorted(own, key);
    super::lemma_sorted(own, key);
    lemma_sorted_items(own, key);
    assert forall|k: int|
        0 <= k < i.pins.len() && (#[trigger] i.pins[k]).label == label implies r.contains(
        i.pins[k],
    ) by {
        i.pins.lemma_filter_contains(f, k);
    }
    if r.len() > 0 {
        assert(r.contains(r[0]));
        assert(own.contains(r[0]));
        let n = choose|n: int| 0 <= n < own.len() && own[n] == r[0];
        i.pins.lemma_filter_pred(f, n);
        i.pins.lemma_filter_contains_rev(f, r[0]);
        let m = choose|m: int| 0 <= m < i.pins.len() && i.pins[m] == r[0];
        assert(i.pins[m].label == label);
        assert forall|k: int|
            0 <= k < i.pins.len() && (#[trigger] i.pins[k]).label
                == label implies i.pins[k].created_at_ns <= r[0].created_at_ns by {
            let a = choose|a: int| 0 <= a < r.len() && r[a] == i.pins[k];
            assert(a == 0 || key(r[0]) <= key(r[a]));
        }
    }
}

// --- the state after an event ------------------------------------------------------------------

/// Whether the event at a place is the newest at its path among those numbered up to `bound`.
pub open spec fn is_newest_up_to(i: Image, path: Seq<char>, bound: i64, m: int) -> bool {
    &&& 0 <= m < i.events.len()
    &&& i.events[m].row.path == path
    &&& i.events[m].row.id <= bound
    &&& forall|k: int|
        0 <= k < i.events.len() && (#[trigger] i.events[k]).row.path == path && i.events[k].row.id
            <= bound ==> i.events[k].row.id <= i.events[m].row.id
}

/// The state after the events up to a number knows a file where one of them is at its path, and
/// then the content that the newest of them there left: also that it left none.
pub proof fn law_state_is_what_the_newest_events_left(i: Image, bound: i64, path: Seq<char>)
    requires
        crate::store::sound(i),
    ensures
        super::snapshot(i.events, bound).contains_key(path) <==> exists|k: int|
            0 <= k < i.events.len() && (#[trigger] i.events[k]).row.path == path
                && i.events[k].row.id <= bound,
        forall|m: int| #[trigger]
            is_newest_up_to(i, path, bound, m) ==> super::snapshot(i.events, bound)[path]
                == i.events[m].row.after_hash,
        super::snapshot(i.events, bound).contains_key(path) ==> exists|m: int| #[trigger]
            is_newest_up_to(i, path, bound, m),
{
    crate::store::laws::lemma_snapshot_names(i.events, bound, path);
    let known = super::snapshot(i.events, bound);
    if known.contains_key(path) {
        let n = choose|n: int| crate::store::laws::names_last(i.events, bound, path, n);
        assert(is_newest_up_to(i, path, bound, n)) by {
            assert forall|k: int|
                0 <= k < i.events.len() && (#[trigger] i.events[k]).row.path == path
                    && i.events[k].row.id <= bound implies i.events[k].row.id
                <= i.events[n].row.id by {
                if k < n {
                    assert(i.events[k].row.id < i.events[n].row.id);
                }
            }
        }
        assert forall|m: int| #[trigger] is_newest_up_to(i, path, bound, m) implies known[path]
            == i.events[m].row.after_hash by {
            if m < n {
                assert(i.events[m].row.id < i.events[n].row.id);
            } else if n < m {
                assert(i.events[n].row.id < i.events[m].row.id);
            }
        }
    } else {
        assert forall|m: int| !(#[trigger] is_newest_up_to(i, path, bound, m)) by {
            if 0 <= m < i.events.len() && i.events[m].row.path == path && i.events[m].row.id
                <= bound {
                assert(known.contains_key(path));
            }
        }
    }
}

/// What a filtered list holds, for any text that is asked for: the events that have the agent, a
/// path that matches the text between two `%`, and that are not older.
pub proof fn law_filter_goes_by_each_question(
    i: Image,
    agent: Option<Seq<char>>,
    path_substring: Option<Seq<char>>,
    since_ns: Option<i64>,
    k: int,
)
    requires
        crate::store::sound(i),
        0 <= k < i.events.len(),
    ensures
        super::filtered(i, agent, path_substring, since_ns, i.events.len()).contains(
            i.events[k].row,
        ) <==> {
            &&& agent matches Some(a) ==> i.events[k].row.attribution == a
            &&& path_substring matches Some(p) ==> crate::text::like(
                "%"@ + p + "%"@,
                i.events[k].row.path,
            )
            &&& since_ns matches Some(t) ==> i.events[k].row.ts_ns >= t
        },
        forall|limit: nat| #[trigger]
            super::filtered(i, agent, path_substring, since_ns, limit) == super::at_most(
                super::filtered(i, agent, path_substring, since_ns, i.events.len()),
                limit,
            ),
{
    let s = super::rows(i.events);
    let f = super::passes(agent, path_substring, since_ns);
    let e = i.events[k].row;
    let kept = s.filter(f);
    let all = super::filtered(i, agent, path_substring, since_ns, i.events.len());
    s.lemma_filter_len(f);
    assert(all =~= kept.reverse());
    assert(s[k] == e);
    if f(e) {
        s.lemma_filter_contains(f, k);
        let m = choose|m: int| 0 <= m < kept.len() && kept[m] == e;
        assert(all[kept.len() - 1 - m] == e);
    }
    if all.contains(e) {
        let m = choose|m: int| 0 <= m < all.len() && all[m] == e;
        assert(kept[kept.len() - 1 - m] == e);
        s.lemma_filter_pred(f, kept.len() - 1 - m);
    }
}

} // verus!
