//! The operations that change the store.
use vstd::prelude::*;

use super::Store;
use crate::failure::{Failure, FailureView};
use crate::image::{Effect, EffectView, Image};
use crate::outside::{hash_hex, now_ns, zstd_decode, zstd_encode};
use crate::rows::{
    EventRecord, EventRecordView, EventRow, EventRowView, FileState, FileStateView, NewEvent,
    NewEventView, PinRow, PinRowView, SessionRow, SessionRowView,
};
use crate::text::{chars_of, same, slice_text};

verus! {

broadcast use vstd::string::group_string_axioms;

// --- blobs -------------------------------------------------------------------------------------

/// The content that an object stands for: what it decompresses to, or the object itself where it
/// is not compressed.
pub open spec fn blob_content(stored: Seq<u8>) -> Seq<u8> {
    match crate::outside::zstd_decoded(stored) {
        Some(bytes) => bytes,
        None => stored,
    }
}

/// The content under a hash.
pub open spec fn blob(i: Image, hash: Seq<char>) -> Option<Seq<u8>> {
    if i.objects.contains_key(hash) {
        Some(blob_content(i.objects[hash]))
    } else {
        None
    }
}

/// Whether the store gives some content back under its hash.
pub open spec fn keeps(i: Image, bytes: Seq<u8>) -> bool {
    blob(i, crate::outside::blake3_hex(bytes)) == Some(bytes)
}

/// Whether storing some content would meet nothing else under its hash.
pub open spec fn welcomes(i: Image, bytes: Seq<u8>) -> bool {
    !i.objects.contains_key(crate::outside::blake3_hex(bytes)) || keeps(i, bytes)
}

/// What storing some content changes: nothing where its hash is known. `None` where the content
/// cannot be compressed.
pub open spec fn blob_effects(i: Image, bytes: Seq<u8>) -> Option<Seq<EffectView>> {
    let hash = crate::outside::blake3_hex(bytes);
    if i.objects.contains_key(hash) {
        Some(Seq::empty())
    } else {
        match crate::outside::zstd_encoded(bytes) {
            Some(stored) => Some(seq![EffectView::PutObject { hash, stored }]),
            None => None,
        }
    }
}

impl Store {
    /// Whether there is an object under a hash.
    pub fn has_blob(&self, hash: &str) -> (r: bool)
        requires
            self.wf(),
        ensures
            r == self.image().objects.contains_key(hash@),
    {
        self.objects.contains_key(hash)
    }

    /// Stores some content under its hash, compressed, unless there is an object under that hash
    /// already. It reads back as that content, unless there was another content under its hash.
    pub fn write_blob(&mut self, bytes: &[u8]) -> (r: Result<String, Failure>)
        requires
            old(self).wf(),
        ensures
            match blob_effects(old(self).image(), bytes@) {
                Some(effects) => {
                    &&& Store::did(*old(self), *final(self), effects)
                    &&& r matches Ok(hash) && hash@ == crate::outside::blake3_hex(bytes@)
                },
                None => {
                    &&& Store::did(*old(self), *final(self), Seq::empty())
                    &&& crate::failure::failed(r, FailureView::Encode)
                },
            },
            r matches Ok(hash) ==> crate::outside::is_hex_text(hash@, 64),
            r is Ok && welcomes(old(self).image(), bytes@) ==> keeps(final(self).image(), bytes@),
    {
        let ghost before = *self;
        let hash = hash_hex(bytes);
        if self.objects.contains_key(hash.as_str()) {
            proof {
                Store::lemma_did_nothing(before);
            }
            return Ok(hash);
        }
        match zstd_encode(bytes) {
            Ok(stored) => {
                let ghost put = EffectView::PutObject { hash: hash@, stored: stored@ };
                self.put_object(hash.as_str(), stored);
                proof {
                    crate::image::lemma_replay_few(before.image(), put, put);
                }
                Ok(hash)
            },
            Err(_) => {
                proof {
                    Store::lemma_did_nothing(before);
                }
                Err(Failure::Encode)
            },
        }
    }

    /// The content under a hash.
    pub fn read_blob(&self, hash: &str) -> (r: Result<Vec<u8>, Failure>)
        requires
            self.wf(),
        ensures
            match blob(self.image(), hash@) {
                Some(bytes) => r matches Ok(b) && b@ == bytes,
                None => crate::failure::failed(r, FailureView::NoObject { hash: hash@ }),
            },
    {
        match self.objects.get(hash) {
            Some(stored) => match zstd_decode(stored.as_slice()) {
                Ok(decoded) => Ok(decoded),
                Err(_) => {
                    let raw = stored.clone();
                    assert(raw@ =~= stored@);
                    Ok(raw)
                },
            },
            None => Err(Failure::NoObject { hash: hash.to_owned() }),
        }
    }

    /// The hash of what was read from a file, with the content itself.
    pub fn hash_file(bytes: Vec<u8>) -> (r: (String, Vec<u8>))
        ensures
            r.0@ == crate::outside::blake3_hex(bytes@),
            r.1@ == bytes@,
    {
        let hash = hash_hex(bytes.as_slice());
        (hash, bytes)
    }
}

// --- events and tracked files ------------------------------------------------------------------

/// The event that is recorded for a change, under the next number.
pub open spec fn recorded(i: Image, e: NewEventView) -> EventRecordView {
    EventRecordView {
        row: EventRowView {
            id: (i.last_event_id + 1) as i64,
            ts_ns: e.ts_ns,
            path: e.path,
            before_hash: e.before_hash,
            after_hash: e.after_hash,
            size_before: e.size_before,
            size_after: e.size_after,
            attribution: e.attribution,
            session_id: e.session_id,
        },
        confidence: e.confidence,
        pid: e.pid,
        process_name: e.process_name,
        tool_name: e.tool_name,
    }
}

impl Store {
    /// Notes the latest content of a file.
    pub fn upsert_file_state(&mut self, path: &str, hash: &str, size: i64, ts_ns: i64)
        requires
            old(self).wf(),
        ensures
            Store::did(
                *old(self),
                *final(self),
                seq![
                    EffectView::SetFileState {
                        path: path@,
                        state: FileStateView {
                            latest_hash: hash@,
                            latest_size: size,
                            latest_ts_ns: ts_ns,
                        },
                    },
                ],
            ),
    {
        self.put_file_state(
            path,
            FileState { latest_hash: hash.to_owned(), latest_size: size, latest_ts_ns: ts_ns },
        );
    }

    /// Stops tracking a file.
    pub fn delete_file_state(&mut self, path: &str)
        requires
            old(self).wf(),
        ensures
            Store::did(
                *old(self),
                *final(self),
                seq![EffectView::DropFileState { path: path@ }],
            ),
    {
        self.drop_file_state(path);
    }

    /// Records a change to a file under the next number, and gives that number.
    pub fn record_event(&mut self, event: &NewEvent) -> (r: Result<i64, Failure>)
        requires
            old(self).wf(),
        ensures
            if old(self).image().last_event_id < i64::MAX {
                &&& Store::did(
                    *old(self),
                    *final(self),
                    seq![
                        EffectView::RecordEvent(recorded(old(self).image(), event.deep_view())),
                    ],
                )
                &&& r matches Ok(id) && id == old(self).image().last_event_id + 1
            } else {
                &&& Store::did(*old(self), *final(self), Seq::empty())
                &&& crate::failure::failed(r, FailureView::Full)
            },
    {
        if self.last_event_id == i64::MAX {
            proof {
                Store::lemma_did_nothing(*self);
            }
            return Err(Failure::Full);
        }
        let id: i64 = self.last_event_id + 1;
        let row = EventRow {
            id,
            ts_ns: event.ts_ns,
            path: event.path.clone(),
            before_hash: event.before_hash.clone(),
            after_hash: event.after_hash.clone(),
            size_before: event.size_before,
            size_after: event.size_after,
            attribution: event.attribution.clone(),
            session_id: event.session_id.clone(),
        };
        let record = EventRecord {
            row,
            confidence: event.confidence.clone(),
            pid: event.pid,
            process_name: event.process_name.clone(),
            tool_name: event.tool_name.clone(),
        };
        assert(record.deep_view() == recorded(self.image(), event.deep_view()));
        self.append_event(record);
        Ok(id)
    }
}

// --- sessions ----------------------------------------------------------------------------------

/// The first of two optional values that is there.
pub open spec fn either<T>(first: Option<T>, second: Option<T>) -> Option<T> {
    match first {
        Some(x) => Some(x),
        None => second,
    }
}

/// The session with an id.
pub open spec fn session_with(i: Image, id: Seq<char>) -> Option<SessionRowView> {
    if crate::image::has_session(i.sessions, id) {
        Some(i.sessions[choose|j: int| 0 <= j < i.sessions.len() && i.sessions[j].id == id])
    } else {
        None
    }
}

/// A session that is reported again: what is known stays known, the agent is the one reported
/// last, and the start is the first one.
pub open spec fn upserted(known: Option<SessionRowView>, s: SessionRowView) -> SessionRowView {
    match known {
        None => s,
        Some(k) => SessionRowView {
            id: s.id,
            agent: s.agent,
            started_at_ns: k.started_at_ns,
            ended_at_ns: either(s.ended_at_ns, k.ended_at_ns),
            prompt: either(s.prompt, k.prompt),
            model: either(s.model, k.model),
            metadata: either(s.metadata, k.metadata),
            prompt_output: either(s.prompt_output, k.prompt_output),
        },
    }
}

/// How many characters of the output of a prompt are kept.
pub const OUTPUT_LIMIT: usize = 500;

/// What is kept of the output of a prompt: its first characters.
pub open spec fn clipped(output: Option<Seq<char>>) -> Option<Seq<char>> {
    match output {
        Some(s) => Some(
            if s.len() > OUTPUT_LIMIT {
                s.take(OUTPUT_LIMIT as int)
            } else {
                s
            },
        ),
        None => None,
    }
}

/// A session that has ended: new metadata is merged into what is known, and anything else that
/// is not reported stays as it was.
pub open spec fn ended(
    known: SessionRowView,
    ts_ns: i64,
    prompt: Option<Seq<char>>,
    model: Option<Seq<char>>,
    output: Option<Seq<char>>,
    metadata: Option<Seq<char>>,
) -> SessionRowView {
    SessionRowView {
        ended_at_ns: Some(ts_ns),
        prompt: either(prompt, known.prompt),
        model: either(model, known.model),
        prompt_output: either(output, known.prompt_output),
        metadata: match (metadata, known.metadata) {
            (Some(new), Some(old)) => Some(crate::json::merged_text(old, new)),
            (Some(new), None) => Some(new),
            (None, old) => old,
        },
        ..known
    }
}

fn either_text(first: Option<String>, second: &Option<String>) -> (r: Option<String>)
    ensures
        r.deep_view() == either(first.deep_view(), second.deep_view()),
{
    match first {
        Some(x) => Some(x),
        None => second.clone(),
    }
}

fn owned(s: Option<&str>) -> (r: Option<String>)
    ensures
        r.deep_view() == s.deep_view(),
{
    match s {
        Some(x) => Some(x.to_owned()),
        None => None,
    }
}

/// What is kept of the output of a prompt: its first characters.
pub fn clip_output(output: Option<&str>) -> (r: Option<String>)
    ensures
        r.deep_view() == clipped(output.deep_view()),
{
    match output {
        Some(s) => {
            let v = chars_of(s);
            if v.len() > OUTPUT_LIMIT {
                let cut = slice_text(&v, 0, OUTPUT_LIMIT);
                assert(cut@ =~= s@.take(OUTPUT_LIMIT as int));
                Some(cut)
            } else {
                Some(s.to_owned())
            }
        },
        None => None,
    }
}

impl Store {
    /// Where the session with an id stands.
    fn session_index(&self, id: &str) -> (r: Option<usize>)
        requires
            self.wf(),
        ensures
            match r {
                Some(k) => {
                    &&& k < self.sessions.len()
                    &&& self.sessions@[k as int].id@ == id@
                    &&& session_with(self.image(), id@) == Some(
                        self.sessions@[k as int].deep_view(),
                    )
                },
                None => !crate::image::has_session(self.image().sessions, id@),
            },
    {
        let ghost s = self.image().sessions;
        let mut i: usize = 0;
        while i < self.sessions.len()
            invariant
                i <= self.sessions.len(),
                self.wf(),
                s == self.image().sessions,
                s.len() == self.sessions.len(),
                forall|j: int| 0 <= j < i ==> (#[trigger] s[j]).id != id@,
            decreases self.sessions.len() - i,
        {
            assert(s[i as int] == self.sessions@[i as int].deep_view());
            if same(self.sessions[i].id.as_str(), id) {
                assert(s[i as int].id == id@);
                let ghost j = choose|j: int| 0 <= j < s.len() && s[j].id == id@;
                assert(s[j].id == id@);
                return Some(i);
            }
            i = i + 1;
        }
        None
    }

    fn put_session(&mut self, row: SessionRow)
        requires
            old(self).wf(),
        ensures
            Store::did(*old(self), *final(self), seq![EffectView::PutSession(row.deep_view())]),
    {
        let ghost before = *self;
        let ghost s = self.image().sessions;
        let ghost v = row.deep_view();
        let copy = row.clone();
        match self.session_index(row.id.as_str()) {
            Some(k) => {
                self.sessions.remove(k);
                self.sessions.insert(k, copy);
                proof {
                    let t = self.image().sessions;
                    assert(s[k as int] == before.sessions@[k as int].deep_view());
                    assert(s[k as int].id == v.id);
                    assert(t =~= s.update(k as int, v));
                    assert forall|j: int| 0 <= j < s.len() && j != k implies (#[trigger] s[j]).id
                        != v.id by {
                        if j < k {
                            assert(s[j].id != s[k as int].id);
                        } else {
                            assert(s[k as int].id != s[j].id);
                        }
                    }
                    assert(t =~= crate::image::put_session(s, v));
                    assert(super::sessions_distinct(t)) by {
                        assert forall|a: int, b: int| 0 <= a < b < t.len() implies (
                        #[trigger] t[a]).id != (#[trigger] t[b]).id by {
                            assert(s[a].id != s[b].id);
                        }
                    }
                }
            },
            None => {
                self.sessions.push(copy);
                proof {
                    let t = self.image().sessions;
                    assert(t =~= s.push(v));
                    assert(super::sessions_distinct(t)) by {
                        assert forall|a: int, b: int| 0 <= a < b < t.len() implies (
                        #[trigger] t[a]).id != (#[trigger] t[b]).id by {
                            assert(s[a] == t[a]);
                            if b < s.len() {
                                assert(s[b] == t[b]);
                            }
                        }
                    }
                }
            },
        }
        let e = Effect::PutSession(row);
        self.effects.push(e);
        proof {
            assert(self.image() =~= crate::image::apply(before.image(), e.deep_view()));
            Store::lemma_did_one(before, *self, e);
        }
    }

    /// Adds a session, or adds to what is known of the session with its id.
    pub fn upsert_session(&mut self, s: &SessionRow)
        requires
            old(self).wf(),
        ensures
            Store::did(
                *old(self),
                *final(self),
                seq![
                    EffectView::PutSession(
                        upserted(session_with(old(self).image(), s.id@), s.deep_view()),
                    ),
                ],
            ),
    {
        let row = match self.session_index(s.id.as_str()) {
            Some(k) => {
                let known = &self.sessions[k];
                SessionRow {
                    id: s.id.clone(),
                    agent: s.agent.clone(),
                    started_at_ns: known.started_at_ns,
                    ended_at_ns: match s.ended_at_ns {
                        Some(t) => Some(t),
                        None => known.ended_at_ns,
                    },
                    prompt: either_text(s.prompt.clone(), &known.prompt),
                    model: either_text(s.model.clone(), &known.model),
                    metadata: either_text(s.metadata.clone(), &known.metadata),
                    prompt_output: either_text(s.prompt_output.clone(), &known.prompt_output),
                }
            },
            None => s.clone(),
        };
        assert(row.deep_view() == upserted(
            session_with(self.image(), s.id@),
            s.deep_view(),
        ));
        self.put_session(row);
    }

    /// Ends a session, where there is one with the id. What is reported of it is added to what is
    /// known, and its metadata is merged.
    pub fn end_session(
        &mut self,
        session_id: &str,
        ts_ns: i64,
        prompt: Option<&str>,
        model: Option<&str>,
        prompt_output: Option<&str>,
        new_metadata: Option<&str>,
    )
        requires
            old(self).wf(),
        ensures
            Store::did(
                *old(self),
                *final(self),
                match session_with(old(self).image(), session_id@) {
                    Some(known) => seq![
                        EffectView::PutSession(
                            ended(
                                known,
                                ts_ns,
                                prompt.deep_view(),
                                model.deep_view(),
                                clipped(prompt_output.deep_view()),
                                new_metadata.deep_view(),
                            ),
                        ),
                    ],
                    None => Seq::empty(),
                },
            ),
    {
        let output: Option<String> = clip_output(prompt_output);
        match self.session_index(session_id) {
            Some(k) => {
                let known = &self.sessions[k];
                let metadata: Option<String> = match (new_metadata, &known.metadata) {
                    (Some(new), Some(old_raw)) => Some(
                        crate::json::json_merge(old_raw.as_str(), new),
                    ),
                    (Some(new), None) => Some(new.to_owned()),
                    (None, m) => m.clone(),
                };
                let row = SessionRow {
                    id: known.id.clone(),
                    agent: known.agent.clone(),
                    started_at_ns: known.started_at_ns,
                    ended_at_ns: Some(ts_ns),
                    prompt: either_text(owned(prompt), &known.prompt),
                    model: either_text(owned(model), &known.model),
                    metadata,
                    prompt_output: either_text(output, &known.prompt_output),
                };
                assert(row.deep_view() == ended(
                    known.deep_view(),
                    ts_ns,
                    prompt.deep_view(),
                    model.deep_view(),
                    clipped(prompt_output.deep_view()),
                    new_metadata.deep_view(),
                ));
                self.put_session(row);
            },
            None => {
                proof {
                    Store::lemma_did_nothing(*self);
                }
            },
        }
    }
}

// --- pins --------------------------------------------------------------------------------------

/// The number of the newest event, or zero where there is none.
pub open spec fn newest_id(i: Image) -> i64 {
    if i.events.len() == 0 {
        0
    } else {
        i.events.last().row.id
    }
}

/// The pin that is made for the state of now, under the next number.
pub open spec fn pinned(i: Image, label: Seq<char>, ts_ns: i64) -> PinRowView {
    PinRowView {
        id: (i.last_pin_id + 1) as i64,
        event_id: newest_id(i),
        label,
        created_at_ns: ts_ns,
    }
}

/// What making a pin changes, and the number of the pin.
pub open spec fn pins_at(
    before: Store,
    after: Store,
    label: Seq<char>,
    ts_ns: i64,
    r: Result<i64, Failure>,
) -> bool {
    if before.image().last_pin_id < i64::MAX {
        &&& Store::did(
            before,
            after,
            seq![EffectView::AddPin(pinned(before.image(), label, ts_ns))],
        )
        &&& r matches Ok(id) && id == before.image().last_pin_id + 1
    } else {
        &&& Store::did(before, after, Seq::empty())
        &&& crate::failure::failed(r, FailureView::Full)
    }
}

impl Store {
    /// Pins the state of now, which is the state after the newest event, at a given time.
    pub fn create_pin_at(&mut self, label: &str, ts_ns: i64) -> (r: Result<i64, Failure>)
        requires
            old(self).wf(),
        ensures
            pins_at(*old(self), *final(self), label@, ts_ns, r),
    {
        if self.last_pin_id == i64::MAX {
            proof {
                Store::lemma_did_nothing(*self);
            }
            return Err(Failure::Full);
        }
        let id: i64 = self.last_pin_id + 1;
        let n: usize = self.events.len();
        let event_id: i64 = if n == 0 {
            0
        } else {
            self.events[n - 1].row.id
        };
        let pin = PinRow { id, event_id, label: label.to_owned(), created_at_ns: ts_ns };
        assert(pin.deep_view() == pinned(self.image(), label@, ts_ns));
        self.append_pin(pin);
        Ok(id)
    }

    /// Pins the state of now, which is the state after the newest event.
    pub fn create_pin(&mut self, label: &str) -> (r: Result<i64, Failure>)
        requires
            old(self).wf(),
        ensures
            exists|ts_ns: i64| pins_at(*old(self), *final(self), label@, ts_ns, r),
    {
        let ts_ns: i64 = now_ns();
        self.create_pin_at(label, ts_ns)
    }
}

} // verus!
