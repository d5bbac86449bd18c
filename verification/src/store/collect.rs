//! Garbage collection: old events, and objects that nothing refers to.
use vstd::prelude::*;

use super::Store;
use crate::image::{Effect, EffectView, Image};
use crate::outside::now_ns;
use crate::rows::{EventRecordView, EventRowView};
use crate::table::TextMap;

verus! {

broadcast use vstd::string::group_string_axioms;

/// Whether an event is the newest one at its path.
pub open spec fn is_latest(events: Seq<EventRecordView>, e: EventRowView) -> bool {
    forall|j: int|
        0 <= j < events.len() && (#[trigger] events[j]).row.path == e.path ==> events[j].row.id
            <= e.id
}

/// Whether an event is the newest one at its path among those numbered up to `bound`.
pub open spec fn is_newest_by(events: Seq<EventRecordView>, e: EventRowView, bound: i64) -> bool {
    &&& e.id <= bound
    &&& forall|j: int|
        0 <= j < events.len() && (#[trigger] events[j]).row.path == e.path && events[j].row.id
            <= bound ==> events[j].row.id <= e.id
}

/// Whether a pin holds an event: the event was the newest one at its path when the pin was made.
pub open spec fn is_held(i: Image, e: EventRowView) -> bool {
    exists|j: int|
        0 <= j < i.pins.len() && is_newest_by(i.events, e, (#[trigger] i.pins[j]).event_id)
}

/// Whether an event may go: it is older than the cutoff, not the newest one at its path, and no
/// pin holds it.
pub open spec fn expired(i: Image, cutoff: int) -> spec_fn(EventRecordView) -> bool {
    |e: EventRecordView|
        e.row.ts_ns < cutoff && !is_latest(i.events, e.row) && !is_held(i, e.row)
}

/// The removal of an event.
pub open spec fn deletion() -> spec_fn(EventRecordView) -> EffectView {
    |e: EventRecordView| EffectView::DeleteEvent(e.row.id)
}

/// The removal of the events that may go.
pub open spec fn deletions(i: Image, cutoff: int) -> Seq<EffectView> {
    i.events.filter(expired(i, cutoff)).map_values(deletion())
}

/// Whether an event names a hash.
pub open spec fn event_names(e: EventRowView, hash: Seq<char>) -> bool {
    e.before_hash == Some(hash) || e.after_hash == Some(hash)
}

/// Whether an event or a tracked file names a hash.
pub open spec fn is_referenced(i: Image, hash: Seq<char>) -> bool {
    ||| exists|j: int| 0 <= j < i.events.len() && event_names(#[trigger] i.events[j].row, hash)
    ||| exists|p: Seq<char>| #[trigger]
        i.file_states.contains_key(p) && i.file_states[p].latest_hash == hash
}

/// Whether nothing names a hash.
pub open spec fn orphaned(i: Image) -> spec_fn(Seq<char>) -> bool {
    |hash: Seq<char>| !is_referenced(i, hash)
}

/// The removal of an object.
pub open spec fn removal() -> spec_fn(Seq<char>) -> EffectView {
    |hash: Seq<char>| EffectView::DropObject { hash }
}

/// The removal of those of the named objects that nothing refers to.
pub open spec fn sweeps(i: Image, names: Seq<Seq<char>>) -> Seq<EffectView> {
    names.filter(orphaned(i)).map_values(removal())
}

/// What a collection changes: the events that may go, and then the objects that nothing refers to
/// any more.
pub open spec fn collected(i: Image, cutoff: int, names: Seq<Seq<char>>) -> Seq<EffectView> {
    let gone = deletions(i, cutoff);
    gone + sweeps(crate::image::replay(i, gone), names)
}

/// Whether a collection with the given cutoff changed the store and reported how much.
pub open spec fn collects(
    before: Store,
    after: Store,
    cutoff: int,
    names: Seq<Seq<char>>,
    r: (usize, usize),
) -> bool {
    let gone = deletions(before.image(), cutoff);
    &&& Store::did(before, after, collected(before.image(), cutoff, names))
    &&& r.0 == gone.len()
    &&& r.1 == sweeps(crate::image::replay(before.image(), gone), names).len()
}

/// Taking the one item out that a filter refuses.
proof fn lemma_filter_all_but<T>(s: Seq<T>, f: spec_fn(T) -> bool, k: int)
    requires
        0 <= k < s.len(),
        !f(s[k]),
        forall|i: int| 0 <= i < s.len() && i != k ==> f(#[trigger] s[i]),
    ensures
        s.filter(f) == s.remove(k),
{
    let a = s.take(k);
    let b = s.skip(k + 1);
    assert(s =~= a + seq![s[k]] + b);
    lemma_filter_all(a, f);
    lemma_filter_all(b, f);
    Seq::filter_distributes_over_add(a + seq![s[k]], b, f);
    Seq::filter_distributes_over_add(a, seq![s[k]], f);
    assert(seq![s[k]].filter(f) =~= Seq::<T>::empty()) by {
        reveal_with_fuel(Seq::filter, 2);
        assert(seq![s[k]].drop_last() =~= Seq::<T>::empty());
    }
    assert(s.remove(k) =~= a + b);
    assert(a + Seq::<T>::empty() + b =~= a + b);
}

/// A filter that refuses nothing.
pub proof fn lemma_filter_all<T>(s: Seq<T>, f: spec_fn(T) -> bool)
    requires
        forall|i: int| 0 <= i < s.len() ==> f(#[trigger] s[i]),
    ensures
        s.filter(f) == s,
    decreases s.len(),
{
    reveal(Seq::filter);
    if s.len() > 0 {
        let t = s.drop_last();
        assert forall|i: int| 0 <= i < t.len() implies f(#[trigger] t[i]) by {
            assert(t[i] == s[i]);
        }
        lemma_filter_all(t, f);
        assert(t.push(s.last()) =~= s);
    }
}

/// Whether `next` is the place of the next event at the path of the event at `at`, or there is
/// none.
spec fn is_next(events: Seq<EventRecordView>, at: int, next: Option<usize>) -> bool {
    let path = events[at].row.path;
    match next {
        Some(m) => {
            &&& at < m < events.len()
            &&& events[m as int].row.path == path
            &&& forall|n: int| at < n < m ==> (#[trigger] events[n]).row.path != path
        },
        None => forall|n: int| at < n < events.len() ==> (#[trigger] events[n]).row.path != path,
    }
}

/// An event is the newest at its path up to a number that lies before the next one there.
proof fn lemma_newest_by(
    events: Seq<EventRecordView>,
    last: i64,
    at: int,
    next: Option<usize>,
    bound: i64,
)
    requires
        super::numbered(events, last),
        0 <= at < events.len(),
        is_next(events, at, next),
    ensures
        is_newest_by(events, events[at].row, bound) <==> {
            &&& events[at].row.id <= bound
            &&& next matches Some(m) ==> bound < events[m as int].row.id
        },
{
    let e = events[at].row;
    let before_next = match next {
        Some(m) => bound < events[m as int].row.id,
        None => true,
    };
    if e.id <= bound && before_next {
        assert forall|j: int|
            0 <= j < events.len() && (#[trigger] events[j]).row.path == e.path && events[j].row.id
                <= bound implies events[j].row.id <= e.id by {
            if j < at {
                assert(events[j].row.id < events[at].row.id);
            } else if let Some(m) = next {
                if j > m {
                    assert(events[m as int].row.id < events[j].row.id);
                }
            }
        }
    }
    if let Some(m) = next {
        assert(events[at].row.id < events[m as int].row.id);
    }
}

impl Store {
    /// Takes an event out of the timeline.
    fn erase_event(&mut self, id: i64)
        requires
            old(self).wf(),
        ensures
            Store::did(*old(self), *final(self), seq![EffectView::DeleteEvent(id)]),
    {
        let ghost before = *self;
        let ghost s = self.image().events;
        let ghost f = |e: EventRecordView| e.row.id != id;
        let mut i: usize = 0;
        let n: usize = self.events.len();
        while i < n && self.events[i].row.id != id
            invariant
                i <= n,
                n == self.events.len(),
                *self == before,
                s == self.image().events,
                s.len() == n,
                forall|j: int| 0 <= j < i ==> (#[trigger] s[j]).row.id != id,
            decreases n - i,
        {
            assert(s[i as int] == self.events@[i as int].deep_view());
            i = i + 1;
        }
        if i < n {
            assert(s[i as int] == self.events@[i as int].deep_view());
            self.events.remove(i);
            proof {
                assert forall|j: int| 0 <= j < s.len() && j != i implies f(#[trigger] s[j]) by {
                    if j < i {
                        assert(s[j].row.id < s[i as int].row.id);
                    } else {
                        assert(s[i as int].row.id < s[j].row.id);
                    }
                }
                lemma_filter_all_but(s, f, i as int);
                assert(self.image().events =~= s.remove(i as int));
                assert(super::numbered(self.image().events, self.image().last_event_id)) by {
                    let t = s.remove(i as int);
                    assert forall|a: int, b: int| 0 <= a < b < t.len() implies (
                    #[trigger] t[a]).row.id < (#[trigger] t[b]).row.id by {
                        let x = if a < i {
                            a
                        } else {
                            a + 1
                        };
                        let y = if b < i {
                            b
                        } else {
                            b + 1
                        };
                        assert(s[x].row.id < s[y].row.id);
                    }
                }
            }
        } else {
            proof {
                lemma_filter_all(s, f);
            }
        }
        let e = Effect::DeleteEvent(id);
        self.effects.push(e);
        proof {
            assert(self.image() =~= crate::image::apply(before.image(), e.deep_view()));
            Store::lemma_did_one(before, *self, e);
        }
    }

    /// For each event the place of the next one at its path.
    fn successors(&self) -> (r: Vec<Option<usize>>)
        requires
            self.wf(),
        ensures
            r.len() == self.image().events.len(),
            forall|j: int| 0 <= j < r.len() ==> is_next(self.image().events, j, #[trigger] r@[j]),
    {
        let ghost s = self.image().events;
        let mut last: TextMap<usize> = TextMap::new();
        let mut out: Vec<Option<usize>> = Vec::new();
        let mut i: usize = 0;
        while i < self.events.len()
            invariant
                i <= self.events.len(),
                s == self.image().events,
                s.len() == self.events.len(),
                out.len() == i,
                last.wf(),
                forall|j: int| 0 <= j < i ==> is_next(s.take(i as int), j, #[trigger] out@[j]),
                forall|j: int|
                    0 <= j < i ==> last@.contains_key((#[trigger] s[j]).row.path)
                        && last@[s[j].row.path] >= j,
                forall|p: Seq<char>| #[trigger]
                    last@.contains_key(p) ==> last@[p] < i && s[last@[p] as int].row.path == p
                        && out@[last@[p] as int] is None,
            decreases self.events.len() - i,
        {
            let ghost so_far = out@;
            let ghost known = last@;
            let ghost path = s[i as int].row.path;
            assert(s[i as int] == self.events@[i as int].deep_view());
            if let Some(at) = last.get(self.events[i].row.path.as_str()) {
                let at: usize = *at;
                out.set(at, Some(i));
            }
            last.insert(self.events[i].row.path.clone(), i);
            out.push(None);
            proof {
                let t = s.take(i as int);
                let u = s.take(i + 1);
                assert forall|j: int| 0 <= j < i + 1 implies is_next(u, j, #[trigger] out@[j]) by {
                    if j < i {
                        assert(is_next(t, j, so_far[j]));
                        assert(forall|n: int| 0 <= n < i ==> #[trigger] t[n] == u[n]);
                        if so_far[j] is None && s[j].row.path == path {
                            let at = known[path] as int;
                            assert(j <= at);
                            if j < at {
                                assert(t[at].row.path == t[j].row.path);
                            }
                            assert(out@[j] == Some(i));
                            assert(u[i as int].row.path == u[j].row.path);
                        } else {
                            assert(out@[j] == so_far[j]);
                        }
                    }
                }
                assert forall|p: Seq<char>| #[trigger] last@.contains_key(p) implies last@[p] < i
                    + 1 && s[last@[p] as int].row.path == p && out@[last@[p] as int] is None by {
                    if p != path {
                        assert(known.contains_key(p));
                        assert(s[known[p] as int].row.path == p);
                    }
                }
            }
            i = i + 1;
        }
        assert(s.take(s.len() as int) =~= s);
        out
    }

    /// Whether one of the pins holds the event at a place, which the event at `next` follows.
    fn held_by_pin(&self, at: usize, next: Option<usize>) -> (r: bool)
        requires
            self.wf(),
            at < self.image().events.len(),
            is_next(self.image().events, at as int, next),
        ensures
            r == is_held(self.image(), self.image().events[at as int].row),
    {
        let ghost im = self.image();
        let ghost s = im.events;
        let ghost e = s[at as int].row;
        assert(s[at as int] == self.events@[at as int].deep_view());
        let mut b: usize = 0;
        while b < self.pins.len()
            invariant
                b <= self.pins.len(),
                self.wf(),
                im == self.image(),
                s == im.events,
                at < s.len(),
                s.len() == self.events.len(),
                e == s[at as int].row,
                e.id == self.events@[at as int].row.id,
                is_next(s, at as int, next),
                forall|j: int|
                    0 <= j < b ==> !is_newest_by(s, e, (#[trigger] im.pins[j]).event_id),
            decreases self.pins.len() - b,
        {
            let pin: i64 = self.pins[b].event_id;
            assert(im.pins[b as int] == self.pins@[b as int].deep_view());
            let ends = match next {
                Some(n) => {
                    assert(s[n as int] == self.events@[n as int].deep_view());
                    self.events[n].row.id <= pin
                },
                None => false,
            };
            proof {
                lemma_newest_by(s, im.last_event_id, at as int, next, pin);
            }
            if self.events[at].row.id <= pin && !ends {
                assert(is_newest_by(s, e, im.pins[b as int].event_id));
                return true;
            }
            b = b + 1;
        }
        false
    }

    /// The numbers of the events that may go.
    fn expired_ids(&self, cutoff: i128) -> (r: Vec<i64>)
        requires
            self.wf(),
        ensures
            r@.map_values(|id: i64| EffectView::DeleteEvent(id)) == deletions(
                self.image(),
                cutoff as int,
            ),
    {
        let ghost im = self.image();
        let ghost s = im.events;
        let ghost f = expired(im, cutoff as int);
        let ghost g = |id: i64| EffectView::DeleteEvent(id);
        let next = self.successors();
        let mut out: Vec<i64> = Vec::new();
        let mut k: usize = 0;
        assert(s.take(0).filter(f) =~= Seq::<EventRecordView>::empty()) by {
            reveal(Seq::filter);
        }
        while k < self.events.len()
            invariant
                k <= self.events.len(),
                self.wf(),
                im == self.image(),
                s == im.events,
                s.len() == self.events.len(),
                f == expired(im, cutoff as int),
                next.len() == s.len(),
                forall|j: int| 0 <= j < next.len() ==> is_next(s, j, #[trigger] next@[j]),
                out.len() == s.take(k as int).filter(f).len(),
                forall|j: int|
                    0 <= j < out.len() ==> #[trigger] out@[j] == s.take(k as int).filter(
                        f,
                    )[j].row.id,
            decreases self.events.len() - k,
        {
            let e = &self.events[k].row;
            assert(s[k as int].row == e.deep_view());
            proof {
                crate::timeline::lemma_filter_next(s, f, k as int);
                lemma_newest_by(s, im.last_event_id, k as int, next@[k as int], i64::MAX);
                assert(is_newest_by(s, e.deep_view(), i64::MAX) == is_latest(s, e.deep_view()));
                if let Some(n) = next@[k as int] {
                    assert(s[n as int].row.id <= i64::MAX);
                }
            }
            if (e.ts_ns as i128) < cutoff && next[k].is_some() && !self.held_by_pin(k, next[k]) {
                out.push(e.id);
            }
            k = k + 1;
        }
        proof {
            assert(s.take(s.len() as int) =~= s);
            assert(out@.map_values(g) =~= deletions(im, cutoff as int));
        }
        out
    }

    /// The hashes that something refers to.
    fn references(&self) -> (r: TextMap<bool>)
        requires
            self.wf(),
        ensures
            r.wf(),
            forall|h: Seq<char>| #[trigger] r@.contains_key(h) <==> is_referenced(self.image(), h),
    {
        let ghost im = self.image();
        let ghost s = im.events;
        let mut seen: TextMap<bool> = TextMap::new();
        let mut i: usize = 0;
        while i < self.events.len()
            invariant
                i <= self.events.len(),
                im == self.image(),
                s == im.events,
                s.len() == self.events.len(),
                seen.wf(),
                forall|h: Seq<char>| #[trigger]
                    seen@.contains_key(h) <==> exists|j: int|
                        0 <= j < i && event_names(#[trigger] s[j].row, h),
            decreases self.events.len() - i,
        {
            let ghost before = seen@;
            let e = &self.events[i].row;
            assert(s[i as int].row == e.deep_view());
            if let Some(h) = &e.before_hash {
                seen.insert(h.clone(), true);
            }
            if let Some(h) = &e.after_hash {
                seen.insert(h.clone(), true);
            }
            assert forall|h: Seq<char>| #[trigger] seen@.contains_key(h) <==> exists|j: int|
                0 <= j < i + 1 && event_names(#[trigger] s[j].row, h) by {
                assert(seen@.contains_key(h) <==> before.contains_key(h) || event_names(
                    s[i as int].row,
                    h,
                ));
                if before.contains_key(h) {
                    let j = choose|j: int| 0 <= j < i && event_names(#[trigger] s[j].row, h);
                    assert(event_names(s[j].row, h));
                }
                if exists|j: int| 0 <= j < i + 1 && event_names(#[trigger] s[j].row, h) {
                    let j = choose|j: int| 0 <= j < i + 1 && event_names(#[trigger] s[j].row, h);
                    if j < i {
                        assert(before.contains_key(h));
                    }
                }
            }
            i = i + 1;
        }
        let paths = self.file_states.keys();
        let ghost d = paths.deep_view();
        let ghost from_events = seen@;
        assert(im.file_states.dom() =~= self.file_states@.dom());
        let mut k: usize = 0;
        while k < paths.len()
            invariant
                k <= paths.len(),
                self.wf(),
                im == self.image(),
                d == paths.deep_view(),
                crate::table::lists_keys(d, im.file_states.dom()),
                seen.wf(),
                forall|h: Seq<char>| #[trigger]
                    seen@.contains_key(h) <==> from_events.contains_key(h) || exists|j: int|
                        0 <= j < k && im.file_states[#[trigger] d[j]].latest_hash == h,
            decreases paths.len() - k,
        {
            let ghost before = seen@;
            assert(d[k as int] == paths@[k as int]@);
            assert(im.file_states.dom().contains(d[k as int]));
            match self.file_states.get(paths[k].as_str()) {
                Some(state) => {
                    assert(im.file_states[d[k as int]] == state.deep_view());
                    seen.insert(state.latest_hash.clone(), true);
                },
                None => {},
            }
            assert forall|h: Seq<char>| #[trigger] seen@.contains_key(h) <==> from_events.contains_key(
                h,
            ) || exists|j: int|
                0 <= j < k + 1 && im.file_states[#[trigger] d[j]].latest_hash == h by {
                assert(seen@.contains_key(h) <==> before.contains_key(h)
                    || im.file_states[d[k as int]].latest_hash == h);
                if exists|j: int| 0 <= j < k + 1 && im.file_states[#[trigger] d[j]].latest_hash == h {
                    let j = choose|j: int|
                        0 <= j < k + 1 && im.file_states[#[trigger] d[j]].latest_hash == h;
                    if j < k {
                        assert(before.contains_key(h));
                    }
                }
                if before.contains_key(h) && !from_events.contains_key(h) {
                    let j = choose|j: int|
                        0 <= j < k && im.file_states[#[trigger] d[j]].latest_hash == h;
                    assert(im.file_states[d[j]].latest_hash == h);
                }
            }
            k = k + 1;
        }
        assert forall|h: Seq<char>| #[trigger] seen@.contains_key(h) <==> is_referenced(im, h) by {
            if seen@.contains_key(h) && !from_events.contains_key(h) {
                let j = choose|j: int|
                    0 <= j < d.len() && im.file_states[#[trigger] d[j]].latest_hash == h;
                assert(im.file_states.contains_key(d[j]));
            }
            if exists|p: Seq<char>| #[trigger]
                im.file_states.contains_key(p) && im.file_states[p].latest_hash == h {
                let p = choose|p: Seq<char>| #[trigger]
                    im.file_states.contains_key(p) && im.file_states[p].latest_hash == h;
                assert(im.file_states.dom().contains(p));
                let j = choose|j: int| 0 <= j < d.len() && d[j] == p;
                assert(im.file_states[d[j]].latest_hash == h);
            }
        }
        seen
    }

    /// Removes those of the named objects that no event and no tracked file refers to, and says
    /// how many they are.
    pub fn sweep_orphan_blobs(&mut self, names: &Vec<String>) -> (r: usize)
        requires
            old(self).wf(),
        ensures
            Store::did(
                *old(self),
                *final(self),
                sweeps(old(self).image(), names.deep_view()),
            ),
            r == sweeps(old(self).image(), names.deep_view()).len(),
    {
        let ghost start = *self;
        let ghost im = self.image();
        let ghost d = names.deep_view();
        let ghost f = orphaned(im);
        let used = self.references();
        let mut swept: usize = 0;
        let mut i: usize = 0;
        assert(d.take(0).filter(f) =~= Seq::<Seq<char>>::empty()) by {
            reveal(Seq::filter);
        }
        assert(d.take(0).filter(f).map_values(removal()) =~= Seq::<EffectView>::empty());
        proof {
            Store::lemma_did_nothing(start);
        }
        while i < names.len()
            invariant
                i <= names.len(),
                d == names.deep_view(),
                im == start.image(),
                f == orphaned(im),
                used.wf(),
                forall|h: Seq<char>| #[trigger] used@.contains_key(h) <==> is_referenced(im, h),
                self.wf(),
                swept <= i,
                swept == d.take(i as int).filter(f).len(),
                Store::did(start, *self, d.take(i as int).filter(f).map_values(removal())),
            decreases names.len() - i,
        {
            let ghost before = *self;
            let ghost done = d.take(i as int).filter(f);
            assert(d[i as int] == names@[i as int]@);
            proof {
                crate::timeline::lemma_filter_next(d, f, i as int);
            }
            if !used.contains_key(names[i].as_str()) {
                self.drop_object(names[i].as_str());
                swept = swept + 1;
                proof {
                    let e = EffectView::DropObject { hash: d[i as int] };
                    Store::lemma_did_both(
                        start,
                        before,
                        *self,
                        done.map_values(removal()),
                        seq![e],
                    );
                    assert(done.push(d[i as int]).map_values(removal()) =~= done.map_values(
                        removal(),
                    ) + seq![e]);
                }
            }
            i = i + 1;
        }
        assert(d.take(d.len() as int) =~= d);
        swept
    }

    /// Collects what is older than `older_than_ns` at a given time: events that are neither the
    /// newest at their path nor held by a pin, and then those of the named objects that nothing refers to
    /// any more. Says how many of each there were.
    pub fn gc_at(&mut self, now: i64, older_than_ns: i64, names: &Vec<String>) -> (r: (
        usize,
        usize,
    ))
        requires
            old(self).wf(),
        ensures
            collects(*old(self), *final(self), now - older_than_ns, names.deep_view(), r),
    {
        let ghost start = *self;
        let ghost im = self.image();
        let cutoff: i128 = (now as i128) - (older_than_ns as i128);
        let ids = self.expired_ids(cutoff);
        let ghost g = |id: i64| EffectView::DeleteEvent(id);
        let mut i: usize = 0;
        assert(ids@.take(0).map_values(g) =~= Seq::<EffectView>::empty());
        proof {
            Store::lemma_did_nothing(start);
        }
        while i < ids.len()
            invariant
                i <= ids.len(),
                g == (|id: i64| EffectView::DeleteEvent(id)),
                self.wf(),
                Store::did(start, *self, ids@.take(i as int).map_values(g)),
            decreases ids.len() - i,
        {
            let ghost before = *self;
            let ghost done = ids@.take(i as int).map_values(g);
            self.erase_event(ids[i]);
            proof {
                let e = EffectView::DeleteEvent(ids@[i as int]);
                Store::lemma_did_both(start, before, *self, done, seq![e]);
                assert(ids@.take(i + 1).map_values(g) =~= done + seq![e]);
            }
            i = i + 1;
        }
        let ghost middle = *self;
        let ghost gone = deletions(im, cutoff as int);
        assert(ids@.take(ids@.len() as int) =~= ids@);
        let swept: usize = self.sweep_orphan_blobs(names);
        proof {
            Store::lemma_did_both(
                start,
                middle,
                *self,
                gone,
                sweeps(middle.image(), names.deep_view()),
            );
            assert(gone.len() == ids@.len());
        }
        (ids.len(), swept)
    }

    /// Collects what is older than `older_than_ns` now (see `gc_at`).
    pub fn gc(&mut self, older_than_ns: i64, names: &Vec<String>) -> (r: (usize, usize))
        requires
            old(self).wf(),
        ensures
            exists|now: i64| #[trigger]
                collects_from(*old(self), *final(self), now, older_than_ns, names.deep_view(), r),
    {
        let now: i64 = now_ns();
        let ghost before = *self;
        let r = self.gc_at(now, older_than_ns, names);
        assert(collects_from(before, *self, now, older_than_ns, names.deep_view(), r));
        r
    }
}

/// Whether a collection at the time `now` changed the store and reported how much.
pub open spec fn collects_from(
    before: Store,
    after: Store,
    now: i64,
    older_than_ns: i64,
    names: Seq<Seq<char>>,
    r: (usize, usize),
) -> bool {
    collects(before, after, now - older_than_ns, names, r)
}

} // verus!
