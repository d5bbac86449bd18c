//! What the timeline answers: which events, sessions and pins a question selects, and in which
//! order.
use vstd::prelude::*;

pub mod laws;

use crate::image::Image;
use crate::rows::{
    EventRecordView, EventRow, EventRowView, PinRow, PinRowView, SessionRow, SessionRowView,
};
use crate::text::same;

verus! {

/// The attributions of the events that a restore leaves behind.
pub open spec fn is_restore(attribution: Seq<char>) -> bool {
    attribution == "agent-undo-restore"@ || attribution == "pre-restore"@
}

/// The attributions of the events that no user or agent caused.
pub open spec fn is_bookkeeping(attribution: Seq<char>) -> bool {
    attribution == "agent-undo-restore"@ || attribution == "pre-restore"@ || attribution
        == "initial-scan"@
}

/// Whether an attribution is that of an event that no user or agent caused.
pub fn is_restore_bookkeeping(attribution: &str) -> (r: bool)
    ensures
        r == is_bookkeeping(attribution@),
{
    same(attribution, "agent-undo-restore") || same(attribution, "pre-restore") || same(
        attribution,
        "initial-scan",
    )
}

/// Whether an attribution is that of an event that a restore leaves behind.
pub fn is_restore_trace(attribution: &str) -> (r: bool)
    ensures
        r == is_restore(attribution@),
{
    same(attribution, "agent-undo-restore") || same(attribution, "pre-restore")
}

/// The events as they are listed.
pub open spec fn rows(events: Seq<EventRecordView>) -> Seq<EventRowView> {
    events.map_values(|e: EventRecordView| e.row)
}

/// The first `n` items of a list, or all of a shorter one.
pub open spec fn at_most<T>(s: Seq<T>, n: nat) -> Seq<T> {
    if n >= s.len() {
        s
    } else {
        s.take(n as int)
    }
}

/// The newest events, newest first.
pub open spec fn recent(i: Image, limit: nat) -> Seq<EventRowView> {
    at_most(rows(i.events).reverse(), limit)
}

/// Whether an event passes the filters that are given.
pub open spec fn passes(
    agent: Option<Seq<char>>,
    path_substring: Option<Seq<char>>,
    since_ns: Option<i64>,
) -> spec_fn(EventRowView) -> bool {
    |e: EventRowView|
        {
            &&& agent matches Some(a) ==> e.attribution == a
            &&& path_substring matches Some(p) ==> crate::text::like("%"@ + p + "%"@, e.path)
            &&& since_ns matches Some(t) ==> e.ts_ns >= t
        }
}

/// The newest events that pass the filters, newest first.
pub open spec fn filtered(
    i: Image,
    agent: Option<Seq<char>>,
    path_substring: Option<Seq<char>>,
    since_ns: Option<i64>,
    limit: nat,
) -> Seq<EventRowView> {
    at_most(rows(i.events).filter(passes(agent, path_substring, since_ns)).reverse(), limit)
}

/// Whether an event belongs to a session and is no trace of a restore.
pub open spec fn in_session(id: Seq<char>) -> spec_fn(EventRowView) -> bool {
    |e: EventRowView| e.session_id == Some(id) && !is_restore(e.attribution)
}

/// The events of a session in the order of their time stamps.
pub open spec fn session_events(i: Image, id: Seq<char>) -> Seq<EventRowView> {
    sorted(rows(i.events).filter(in_session(id)), |e: EventRowView| e.ts_ns as int)
}

/// Whether a user or an agent caused an event.
pub open spec fn by_user() -> spec_fn(EventRowView) -> bool {
    |e: EventRowView| !is_bookkeeping(e.attribution)
}

/// Whether a user or an agent caused an event, and at this path.
pub open spec fn by_user_at(path: Seq<char>) -> spec_fn(EventRowView) -> bool {
    |e: EventRowView| !is_bookkeeping(e.attribution) && e.path == path
}

/// The last item of a list.
pub open spec fn last_of<T>(s: Seq<T>) -> Option<T> {
    if s.len() == 0 {
        None
    } else {
        Some(s.last())
    }
}

/// The first item of a list.
pub open spec fn first_of<T>(s: Seq<T>) -> Option<T> {
    if s.len() == 0 {
        None
    } else {
        Some(s.first())
    }
}

/// The newest event that a user or an agent caused.
pub open spec fn latest_user(i: Image) -> Option<EventRowView> {
    last_of(rows(i.events).filter(by_user()))
}

/// The newest event that a user or an agent caused at a path.
pub open spec fn latest_user_at(i: Image, path: Seq<char>) -> Option<EventRowView> {
    last_of(rows(i.events).filter(by_user_at(path)))
}

/// Whether an event has a number.
pub open spec fn with_id(id: i64) -> spec_fn(EventRowView) -> bool {
    |e: EventRowView| e.id == id
}

/// The event with a number.
pub open spec fn find_event(i: Image, id: i64) -> Option<EventRowView> {
    first_of(rows(i.events).filter(with_id(id)))
}

/// The content that each file had after the events numbered up to `id`: its hash, or that it did
/// not exist.
pub open spec fn snapshot(events: Seq<EventRecordView>, id: i64) -> Map<
    Seq<char>,
    Option<Seq<char>>,
>
    decreases events.len(),
{
    if events.len() == 0 {
        Map::empty()
    } else {
        let m = snapshot(events.drop_last(), id);
        let e = events.last().row;
        if e.id <= id {
            m.insert(e.path, e.after_hash)
        } else {
            m
        }
    }
}

/// The sessions, the one started last first.
pub open spec fn sessions_newest(i: Image) -> Seq<SessionRowView> {
    sorted(i.sessions, |s: SessionRowView| -(s.started_at_ns as int))
}

/// The pins, the one made last first.
pub open spec fn pins_newest(i: Image) -> Seq<PinRowView> {
    sorted(i.pins, |p: PinRowView| -(p.created_at_ns as int))
}

/// Whether a pin has a label.
pub open spec fn labeled(label: Seq<char>) -> spec_fn(PinRowView) -> bool {
    |p: PinRowView| p.label == label
}

/// The newest pin with a label.
pub open spec fn find_pin(i: Image, label: Seq<char>) -> Option<PinRowView> {
    first_of(
        sorted(i.pins.filter(labeled(label)), |p: PinRowView| -(p.created_at_ns as int)),
    )
}

// --- stable sorting ------------------------------------------------------------------------

/// A sorted list with one more item, put behind the items that are not greater.
pub open spec fn insert_sorted<T>(s: Seq<T>, x: T, key: spec_fn(T) -> int) -> Seq<T>
    decreases s.len(),
{
    if s.len() == 0 || key(s.last()) <= key(x) {
        s.push(x)
    } else {
        insert_sorted(s.drop_last(), x, key).push(s.last())
    }
}

/// The items of a list by increasing key; items with one key stay in their order.
pub open spec fn sorted<T>(s: Seq<T>, key: spec_fn(T) -> int) -> Seq<T>
    decreases s.len(),
{
    if s.len() == 0 {
        s
    } else {
        insert_sorted(sorted(s.drop_last(), key), s.last(), key)
    }
}

/// Whether the keys of a list never decrease.
pub open spec fn ordered<T>(s: Seq<T>, key: spec_fn(T) -> int) -> bool {
    forall|i: int, j: int| 0 <= i < j < s.len() ==> key(#[trigger] s[i]) <= key(#[trigger] s[j])
}

proof fn lemma_insert_sorted<T>(s: Seq<T>, x: T, key: spec_fn(T) -> int)
    requires
        ordered(s, key),
    ensures
        ordered(insert_sorted(s, x, key), key),
        insert_sorted(s, x, key).to_multiset() == s.to_multiset().insert(x),
        insert_sorted(s, x, key).len() == s.len() + 1,
    decreases s.len(),
{
    broadcast use vstd::seq_lib::group_to_multiset_ensures;

    if s.len() == 0 || key(s.last()) <= key(x) {
    } else {
        let t = s.drop_last();
        lemma_insert_sorted(t, x, key);
        let r = insert_sorted(t, x, key);
        assert(s =~= t.push(s.last()));
        assert forall|i: int| 0 <= i < r.len() implies key(#[trigger] r[i]) <= key(s.last()) by {
            assert(r.to_multiset().count(r[i]) > 0) by {
                assert(r.contains(r[i]));
            }
            if r[i] != x {
                assert(t.to_multiset().count(r[i]) > 0);
                assert(t.contains(r[i]));
                let j = choose|j: int| 0 <= j < t.len() && t[j] == r[i];
                assert(s[j] == r[i]);
            }
        }
        assert(r.push(s.last()).to_multiset() =~= s.to_multiset().insert(x));
    }
}

/// Sorting puts a list in order and neither adds nor loses an item.
pub proof fn lemma_sorted<T>(s: Seq<T>, key: spec_fn(T) -> int)
    ensures
        ordered(sorted(s, key), key),
        sorted(s, key).to_multiset() == s.to_multiset(),
        sorted(s, key).len() == s.len(),
    decreases s.len(),
{
    broadcast use vstd::seq_lib::group_to_multiset_ensures;

    if s.len() > 0 {
        lemma_sorted(s.drop_last(), key);
        lemma_insert_sorted(sorted(s.drop_last(), key), s.last(), key);
        assert(s =~= s.drop_last().push(s.last()));
    }
}

proof fn lemma_insert_place<T>(s: Seq<T>, x: T, key: spec_fn(T) -> int, at: int)
    requires
        0 <= at <= s.len(),
        at > 0 ==> key(s[at - 1]) <= key(x),
        forall|i: int| at <= i < s.len() ==> key(#[trigger] s[i]) > key(x),
    ensures
        insert_sorted(s, x, key) == s.insert(at, x),
    decreases s.len(),
{
    if at == s.len() {
        assert(s.insert(at, x) =~= s.push(x));
    } else {
        let t = s.drop_last();
        lemma_insert_place(t, x, key, at);
        assert(s.insert(at, x) =~= t.insert(at, x).push(s.last()));
    }
}

/// A row that has its place in time.
pub trait Timed: Sized + DeepView {
    /// The place of a row in the order that it is listed in.
    spec fn place(v: Self::V) -> int;

    /// The place of a row in the order that it is listed in.
    fn time(&self) -> (r: i128)
        ensures
            r == Self::place(self.deep_view()),
    ;
}

impl Timed for EventRow {
    open spec fn place(v: EventRowView) -> int {
        v.ts_ns as int
    }

    fn time(&self) -> (r: i128) {
        self.ts_ns as i128
    }
}

impl Timed for SessionRow {
    open spec fn place(v: SessionRowView) -> int {
        -(v.started_at_ns as int)
    }

    fn time(&self) -> (r: i128) {
        -(self.started_at_ns as i128)
    }
}

impl Timed for PinRow {
    open spec fn place(v: PinRowView) -> int {
        -(v.created_at_ns as int)
    }

    fn time(&self) -> (r: i128) {
        -(self.created_at_ns as i128)
    }
}

/// Puts a row into a list that is in order.
pub fn insert_timed<T: Timed>(list: &mut Vec<T>, x: T)
    ensures
        final(list).deep_view() == insert_sorted(
            old(list).deep_view(),
            x.deep_view(),
            |v: T::V| T::place(v),
        ),
{
    let ghost s = list.deep_view();
    let ghost key = |v: T::V| T::place(v);
    let t: i128 = x.time();
    let mut at: usize = list.len();
    while at > 0 && list[at - 1].time() > t
        invariant
            at <= list.len(),
            s == list.deep_view(),
            t == T::place(x.deep_view()),
            forall|i: int| at <= i < s.len() ==> T::place(#[trigger] s[i]) > t,
        decreases at,
    {
        assert(s[at - 1] == list@[at - 1].deep_view());
        at = at - 1;
    }
    proof {
        if at > 0 {
            assert(s[at - 1] == list@[at - 1].deep_view());
        }
        lemma_insert_place(s, x.deep_view(), key, at as int);
    }
    list.insert(at, x);
    assert(list.deep_view() =~= s.insert(at as int, x.deep_view()));
}

// --- selecting -----------------------------------------------------------------------------

/// One more item before a filter.
pub proof fn lemma_filter_next<T>(s: Seq<T>, f: spec_fn(T) -> bool, n: int)
    requires
        0 <= n < s.len(),
    ensures
        s.take(n + 1).filter(f) == (if f(s[n]) {
            s.take(n).filter(f).push(s[n])
        } else {
            s.take(n).filter(f)
        }),
{
    reveal(Seq::filter);
    assert(s.take(n + 1).drop_last() =~= s.take(n));
    assert(s.take(n + 1).last() == s[n]);
}

/// One more item before a sort.
pub proof fn lemma_sorted_push<T>(s: Seq<T>, x: T, key: spec_fn(T) -> int)
    ensures
        sorted(s.push(x), key) == insert_sorted(sorted(s, key), x, key),
{
    assert(s.push(x).drop_last() =~= s);
}

} // verus!
