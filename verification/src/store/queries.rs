//! Questions that the store answers.
use vstd::prelude::*;

use super::Store;
use crate::image::{Entry, Marker};
use crate::rows::{
    EventRecordView, EventRow, EventRowView, PinRow, PinRowView, SessionRow, SessionRowView,
};
use crate::table::{listed, TextMap};
use crate::text::{is_like, same};
use crate::timeline::{insert_timed, is_restore_bookkeeping, is_restore_trace, Timed};

verus! {

broadcast use vstd::string::group_string_axioms;

/// The last items of a list, last first, and at most so many.
fn newest_events(list: &Vec<EventRow>, limit: usize) -> (r: Vec<EventRow>)
    ensures
        r.deep_view() == crate::timeline::at_most(list.deep_view().reverse(), limit as nat),
{
    let ghost s = list.deep_view();
    let mut out: Vec<EventRow> = Vec::new();
    let mut left: usize = list.len();
    while left > 0 && out.len() < limit
        invariant
            left <= list.len(),
            s == list.deep_view(),
            out.len() <= limit,
            out.len() + left == list.len(),
            forall|j: int| 0 <= j < out.len() ==> (#[trigger] out@[j]).deep_view() == s[s.len() - 1 - j],
        decreases left,
    {
        left = left - 1;
        let item = list[left].clone();
        assert(item.deep_view() == s[left as int]);
        out.push(item);
    }
    assert(out.deep_view() =~= crate::timeline::at_most(s.reverse(), limit as nat));
    out
}

/// There are no more events than numbers were given.
proof fn lemma_numbered_len(events: Seq<EventRecordView>, last: i64)
    requires
        super::numbered(events, last),
    ensures
        events.len() <= last,
    decreases events.len(),
{
    if events.len() > 0 {
        let fewer = events.drop_last();
        let n = events.len() - 1;
        assert(events[n].row.id <= last);
        let below = (events[n].row.id - 1) as i64;
        assert forall|i: int| 0 <= i < fewer.len() implies 0 < (#[trigger] fewer[i]).row.id
            <= below by {
            assert(fewer[i] == events[i]);
            assert(events[i].row.id < events[n].row.id);
        }
        assert forall|i: int, j: int| 0 <= i < j < fewer.len() implies (
        #[trigger] fewer[i]).row.id < (#[trigger] fewer[j]).row.id by {
            assert(events[i].row.id < events[j].row.id);
        }
        lemma_numbered_len(fewer, below);
    }
}

impl Store {
    /// The latest known hash and size of a tracked file.
    pub fn get_file_state(&self, path: &str) -> (r: Option<(String, i64)>)
        requires
            self.wf(),
        ensures
            r.deep_view() == (if self.image().file_states.contains_key(path@) {
                Some(
                    (
                        self.image().file_states[path@].latest_hash,
                        self.image().file_states[path@].latest_size,
                    ),
                )
            } else {
                None
            }),
    {
        match self.file_states.get(path) {
            Some(state) => Some((state.latest_hash.clone(), state.latest_size)),
            None => None,
        }
    }

    /// The event with a number.
    pub fn get_event(&self, id: i64) -> (r: Option<EventRow>)
        requires
            self.wf(),
        ensures
            r.deep_view() == crate::timeline::find_event(self.image(), id),
    {
        let ghost s = crate::timeline::rows(self.image().events);
        let ghost f = crate::timeline::with_id(id);
        let mut found: Option<EventRow> = None;
        let mut i: usize = 0;
        assert(s.take(0).filter(f) =~= Seq::<EventRowView>::empty()) by {
            reveal(Seq::filter);
        }
        while i < self.events.len()
            invariant
                i <= self.events.len(),
                s == crate::timeline::rows(self.image().events),
                s.len() == self.events.len(),
                f == crate::timeline::with_id(id),
                found.deep_view() == crate::timeline::first_of(s.take(i as int).filter(f)),
            decreases self.events.len() - i,
        {
            let e = &self.events[i];
            assert(s[i as int] == e.row.deep_view());
            proof {
                crate::timeline::lemma_filter_next(s, f, i as int);
            }
            if found.is_none() && e.row.id == id {
                found = Some(e.row.clone());
            }
            i = i + 1;
        }
        assert(s.take(s.len() as int) =~= s);
        found
    }

    /// The most recent event at a path, leaving out what restores and the first scan recorded.
    pub fn latest_user_event_for_file(&self, path: &str) -> (r: Option<EventRow>)
        requires
            self.wf(),
        ensures
            r.deep_view() == crate::timeline::latest_user_at(self.image(), path@),
    {
        let ghost s = crate::timeline::rows(self.image().events);
        let ghost f = crate::timeline::by_user_at(path@);
        let mut found: Option<EventRow> = None;
        let mut i: usize = 0;
        assert(s.take(0).filter(f) =~= Seq::<EventRowView>::empty()) by {
            reveal(Seq::filter);
        }
        while i < self.events.len()
            invariant
                i <= self.events.len(),
                s == crate::timeline::rows(self.image().events),
                s.len() == self.events.len(),
                f == crate::timeline::by_user_at(path@),
                found.deep_view() == crate::timeline::last_of(s.take(i as int).filter(f)),
            decreases self.events.len() - i,
        {
            let e = &self.events[i];
            assert(s[i as int] == e.row.deep_view());
            proof {
                crate::timeline::lemma_filter_next(s, f, i as int);
            }
            if !is_restore_bookkeeping(e.row.attribution.as_str()) && same(
                e.row.path.as_str(),
                path,
            ) {
                found = Some(e.row.clone());
            }
            i = i + 1;
        }
        assert(s.take(s.len() as int) =~= s);
        found
    }

    /// The most recent event, leaving out what restores and the first scan recorded.
    pub fn latest_user_event(&self) -> (r: Option<EventRow>)
        requires
            self.wf(),
        ensures
            r.deep_view() == crate::timeline::latest_user(self.image()),
    {
        let ghost s = crate::timeline::rows(self.image().events);
        let ghost f = crate::timeline::by_user();
        let mut found: Option<EventRow> = None;
        let mut i: usize = 0;
        assert(s.take(0).filter(f) =~= Seq::<EventRowView>::empty()) by {
            reveal(Seq::filter);
        }
        while i < self.events.len()
            invariant
                i <= self.events.len(),
                s == crate::timeline::rows(self.image().events),
                s.len() == self.events.len(),
                f == crate::timeline::by_user(),
                found.deep_view() == crate::timeline::last_of(s.take(i as int).filter(f)),
            decreases self.events.len() - i,
        {
            let e = &self.events[i];
            assert(s[i as int] == e.row.deep_view());
            proof {
                crate::timeline::lemma_filter_next(s, f, i as int);
            }
            if !is_restore_bookkeeping(e.row.attribution.as_str()) {
                found = Some(e.row.clone());
            }
            i = i + 1;
        }
        assert(s.take(s.len() as int) =~= s);
        found
    }

    /// The events of a session in the order of their time stamps, leaving out what restores
    /// recorded.
    pub fn events_for_session(&self, session_id: &str) -> (r: Vec<EventRow>)
        requires
            self.wf(),
        ensures
            r.deep_view() == crate::timeline::session_events(self.image(), session_id@),
    {
        let ghost s = crate::timeline::rows(self.image().events);
        let ghost f = crate::timeline::in_session(session_id@);
        let ghost key = |e: EventRowView| e.ts_ns as int;
        let mut out: Vec<EventRow> = Vec::new();
        let mut i: usize = 0;
        assert(s.take(0).filter(f) =~= Seq::<EventRowView>::empty()) by {
            reveal(Seq::filter);
        }
        assert(out.deep_view() =~= Seq::<EventRowView>::empty());
        while i < self.events.len()
            invariant
                i <= self.events.len(),
                s == crate::timeline::rows(self.image().events),
                s.len() == self.events.len(),
                f == crate::timeline::in_session(session_id@),
                key == (|e: EventRowView| e.ts_ns as int),
                out.deep_view() == crate::timeline::sorted(s.take(i as int).filter(f), key),
            decreases self.events.len() - i,
        {
            let e = &self.events[i];
            assert(s[i as int] == e.row.deep_view());
            proof {
                crate::timeline::lemma_filter_next(s, f, i as int);
                crate::timeline::lemma_sorted_push(
                    s.take(i as int).filter(f),
                    e.row.deep_view(),
                    key,
                );
                assert(key =~= (|v: EventRowView| EventRow::place(v)));
            }
            let here = match &e.row.session_id {
                Some(id) => same(id.as_str(), session_id),
                None => false,
            };
            if here && !is_restore_trace(e.row.attribution.as_str()) {
                insert_timed(&mut out, e.row.clone());
            }
            i = i + 1;
        }
        assert(s.take(s.len() as int) =~= s);
        out
    }

    /// The newest events that pass the filters, newest first. `None` disables a filter; the path
    /// filter is a pattern (see `like`) that may stand anywhere in the path.
    pub fn filtered_events(
        &self,
        agent: Option<&str>,
        path_substring: Option<&str>,
        since_ns: Option<i64>,
        limit: usize,
    ) -> (r: Vec<EventRow>)
        requires
            self.wf(),
        ensures
            r.deep_view() == crate::timeline::filtered(
                self.image(),
                agent.deep_view(),
                path_substring.deep_view(),
                since_ns,
                limit as nat,
            ),
    {
        let ghost s = crate::timeline::rows(self.image().events);
        let ghost f = crate::timeline::passes(
            agent.deep_view(),
            path_substring.deep_view(),
            since_ns,
        );
        let pattern: Option<String> = match path_substring {
            Some(p) => {
                let mut t = "%".to_owned();
                t.append(p);
                t.append("%");
                Some(t)
            },
            None => None,
        };
        let mut out: Vec<EventRow> = Vec::new();
        let mut i: usize = 0;
        assert(s.take(0).filter(f) =~= Seq::<EventRowView>::empty()) by {
            reveal(Seq::filter);
        }
        assert(out.deep_view() =~= Seq::<EventRowView>::empty());
        while i < self.events.len()
            invariant
                i <= self.events.len(),
                s == crate::timeline::rows(self.image().events),
                s.len() == self.events.len(),
                f == crate::timeline::passes(
                    agent.deep_view(),
                    path_substring.deep_view(),
                    since_ns,
                ),
                path_substring is Some == pattern is Some,
                pattern matches Some(t) ==> t@ == "%"@ + path_substring->0@ + "%"@,
                out.deep_view() == s.take(i as int).filter(f),
            decreases self.events.len() - i,
        {
            let e = &self.events[i];
            assert(s[i as int] == e.row.deep_view());
            proof {
                crate::timeline::lemma_filter_next(s, f, i as int);
            }
            let by_agent = match agent {
                Some(a) => same(e.row.attribution.as_str(), a),
                None => true,
            };
            let by_path = match &pattern {
                Some(t) => is_like(e.row.path.as_str(), t.as_str()),
                None => true,
            };
            let by_time = match since_ns {
                Some(t) => e.row.ts_ns >= t,
                None => true,
            };
            let ghost so_far = out.deep_view();
            if by_agent && by_path && by_time {
                let copy = e.row.clone();
                out.push(copy);
                assert(out.deep_view() =~= so_far.push(copy.deep_view()));
            }
            i = i + 1;
        }
        assert(s.take(s.len() as int) =~= s);
        newest_events(&out, limit)
    }

    /// The newest events, newest first.
    pub fn recent_events(&self, limit: usize) -> (r: Vec<EventRow>)
        requires
            self.wf(),
        ensures
            r.deep_view() == crate::timeline::recent(self.image(), limit as nat),
    {
        let ghost s = crate::timeline::rows(self.image().events);
        let mut out: Vec<EventRow> = Vec::new();
        let mut left: usize = self.events.len();
        while left > 0 && out.len() < limit
            invariant
                left <= self.events.len(),
                s == crate::timeline::rows(self.image().events),
                s.len() == self.events.len(),
                out.len() <= limit,
                out.len() + left == self.events.len(),
                forall|j: int|
                    0 <= j < out.len() ==> (#[trigger] out@[j]).deep_view() == s[s.len() - 1 - j],
            decreases left,
        {
            left = left - 1;
            let item = self.events[left].row.clone();
            assert(item.deep_view() == s[left as int]);
            out.push(item);
        }
        assert(out.deep_view() =~= crate::timeline::recent(self.image(), limit as nat));
        out
    }

    /// The sessions, the one started last first.
    pub fn list_sessions(&self, limit: usize) -> (r: Vec<SessionRow>)
        requires
            self.wf(),
        ensures
            r.deep_view() == crate::timeline::at_most(
                crate::timeline::sessions_newest(self.image()),
                limit as nat,
            ),
    {
        let ghost s = self.image().sessions;
        let ghost key = |x: SessionRowView| -(x.started_at_ns as int);
        let mut out: Vec<SessionRow> = Vec::new();
        let mut i: usize = 0;
        assert(out.deep_view() =~= s.take(0));
        while i < self.sessions.len()
            invariant
                i <= self.sessions.len(),
                s == self.image().sessions,
                s.len() == self.sessions.len(),
                key == (|x: SessionRowView| -(x.started_at_ns as int)),
                out.deep_view() == crate::timeline::sorted(s.take(i as int), key),
            decreases self.sessions.len() - i,
        {
            proof {
                assert(s[i as int] == self.sessions@[i as int].deep_view());
                assert(s.take(i + 1) =~= s.take(i as int).push(s[i as int]));
                crate::timeline::lemma_sorted_push(s.take(i as int), s[i as int], key);
                assert(key =~= (|v: SessionRowView| SessionRow::place(v)));
            }
            insert_timed(&mut out, self.sessions[i].clone());
            i = i + 1;
        }
        proof {
            assert(s.take(s.len() as int) =~= s);
            crate::timeline::lemma_sorted(s, key);
        }
        if limit < out.len() {
            let ghost all = out.deep_view();
            out.truncate(limit);
            assert(out.deep_view() =~= all.take(limit as int));
        }
        out
    }

    /// The session that was started last, ended or not.
    pub fn latest_session(&self) -> (r: Option<SessionRow>)
        requires
            self.wf(),
        ensures
            r.deep_view() == crate::timeline::first_of(
                crate::timeline::sessions_newest(self.image()),
            ),
    {
        let ghost all = crate::timeline::sessions_newest(self.image());
        let mut list = self.list_sessions(1);
        let ghost listed = list.deep_view();
        if list.len() == 0 {
            assert(listed.len() == 0);
            None
        } else {
            assert(listed[0] == all[0]);
            let first = list.remove(0);
            assert(listed[0] == first.deep_view());
            Some(first)
        }
    }

    /// The pins, the one made last first.
    pub fn list_pins(&self) -> (r: Vec<PinRow>)
        requires
            self.wf(),
        ensures
            r.deep_view() == crate::timeline::pins_newest(self.image()),
    {
        let ghost s = self.image().pins;
        let ghost key = |x: PinRowView| -(x.created_at_ns as int);
        let mut out: Vec<PinRow> = Vec::new();
        let mut i: usize = 0;
        assert(out.deep_view() =~= s.take(0));
        while i < self.pins.len()
            invariant
                i <= self.pins.len(),
                s == self.image().pins,
                s.len() == self.pins.len(),
                key == (|x: PinRowView| -(x.created_at_ns as int)),
                out.deep_view() == crate::timeline::sorted(s.take(i as int), key),
            decreases self.pins.len() - i,
        {
            proof {
                assert(s[i as int] == self.pins@[i as int].deep_view());
                assert(s.take(i + 1) =~= s.take(i as int).push(s[i as int]));
                crate::timeline::lemma_sorted_push(s.take(i as int), s[i as int], key);
                assert(key =~= (|v: PinRowView| PinRow::place(v)));
            }
            insert_timed(&mut out, self.pins[i].clone());
            i = i + 1;
        }
        assert(s.take(s.len() as int) =~= s);
        out
    }

    /// The pin that was made last.
    pub fn latest_pin(&self) -> (r: Option<PinRow>)
        requires
            self.wf(),
        ensures
            r.deep_view() == crate::timeline::first_of(
                crate::timeline::pins_newest(self.image()),
            ),
    {
        let mut list = self.list_pins();
        if list.len() == 0 {
            None
        } else {
            let ghost s = list.deep_view();
            let first = list.remove(0);
            assert(s[0] == first.deep_view());
            Some(first)
        }
    }

    /// The pin with a label that was made last.
    pub fn find_pin(&self, label: &str) -> (r: Option<PinRow>)
        requires
            self.wf(),
        ensures
            r.deep_view() == crate::timeline::find_pin(self.image(), label@),
    {
        let ghost s = self.image().pins;
        let ghost f = crate::timeline::labeled(label@);
        let ghost key = |x: PinRowView| -(x.created_at_ns as int);
        let mut out: Vec<PinRow> = Vec::new();
        let mut i: usize = 0;
        assert(s.take(0).filter(f) =~= Seq::<PinRowView>::empty()) by {
            reveal(Seq::filter);
        }
        assert(out.deep_view() =~= Seq::<PinRowView>::empty());
        while i < self.pins.len()
            invariant
                i <= self.pins.len(),
                s == self.image().pins,
                s.len() == self.pins.len(),
                f == crate::timeline::labeled(label@),
                key == (|x: PinRowView| -(x.created_at_ns as int)),
                out.deep_view() == crate::timeline::sorted(s.take(i as int).filter(f), key),
            decreases self.pins.len() - i,
        {
            proof {
                assert(s[i as int] == self.pins@[i as int].deep_view());
                crate::timeline::lemma_filter_next(s, f, i as int);
                crate::timeline::lemma_sorted_push(
                    s.take(i as int).filter(f),
                    s[i as int],
                    key,
                );
                assert(key =~= (|v: PinRowView| PinRow::place(v)));
            }
            if same(self.pins[i].label.as_str(), label) {
                insert_timed(&mut out, self.pins[i].clone());
            }
            i = i + 1;
        }
        assert(s.take(s.len() as int) =~= s);
        if out.len() == 0 {
            None
        } else {
            let ghost all = out.deep_view();
            let first = out.remove(0);
            assert(all[0] == first.deep_view());
            Some(first)
        }
    }

    /// The content of each file after the events numbered up to `event_id`: the hash of its
    /// content, or that it did not exist. In the order of the paths.
    pub fn file_state_at_event(&self, event_id: i64) -> (r: Vec<(String, Option<String>)>)
        requires
            self.wf(),
        ensures
            crate::table::lists(
                r.deep_view(),
                crate::timeline::snapshot(self.image().events, event_id),
            ),
    {
        let ghost s = self.image().events;
        let mut map: TextMap<Option<String>> = TextMap::new();
        let mut i: usize = 0;
        assert(map.deep_view() =~= Map::<Seq<char>, Option<Seq<char>>>::empty());
        while i < self.events.len()
            invariant
                i <= self.events.len(),
                s == self.image().events,
                s.len() == self.events.len(),
                map.wf(),
                map.deep_view() == crate::timeline::snapshot(s.take(i as int), event_id),
            decreases self.events.len() - i,
        {
            let e = &self.events[i];
            let ghost so_far = map;
            if e.row.id <= event_id {
                let hash = e.row.after_hash.clone();
                map.insert(e.row.path.clone(), hash);
                assert(map.deep_view() =~= so_far.deep_view().insert(
                    e.row.path@,
                    e.row.after_hash.deep_view(),
                ));
            }
            proof {
                assert(s[i as int] == e.deep_view());
                assert(s.take(i + 1).drop_last() =~= s.take(i as int));
            }
            i = i + 1;
        }
        assert(s.take(s.len() as int) =~= s);
        listed(map)
    }

    /// The paths of the tracked files, in order.
    pub fn current_tracked_paths(&self) -> (r: Vec<String>)
        requires
            self.wf(),
        ensures
            crate::table::lists_keys(r.deep_view(), self.image().file_states.dom()),
    {
        assert(self.image().file_states.dom() =~= self.file_states@.dom());
        self.file_states.keys()
    }

    /// How many events there are.
    pub fn event_count(&self) -> (r: i64)
        requires
            self.wf(),
        ensures
            r == self.image().events.len(),
    {
        proof {
            lemma_numbered_len(self.image().events, self.image().last_event_id);
        }
        self.events.len() as i64
    }

    /// What stands at a path of the working tree.
    pub fn entry(&self, path: &str) -> (r: Option<&Entry>)
        requires
            self.wf(),
        ensures
            match r {
                Some(e) => self.image().files.contains_key(path@) && self.image().files[path@]
                    == e.deep_view(),
                None => !self.image().files.contains_key(path@),
            },
    {
        self.files.get(path)
    }

    /// The marker of the active session.
    pub fn marker(&self) -> (r: &Marker)
        ensures
            r.deep_view() == self.image().marker,
    {
        &self.marker
    }
}

} // verus!
