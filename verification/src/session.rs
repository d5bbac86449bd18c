//! Sessions: a stretch of work of one agent, from its start to its end.
use vstd::prelude::*;

use crate::failure::{joined, Failure, FailureView};
use crate::image::{EffectView, Image, Marker, MarkerView};
use crate::json::{get_text, get_text_or, read, shown};
use crate::outside::{now_ns, random_hex};
use crate::paths::active_session_path;
use crate::rows::{ActiveSession, ActiveSessionView, SessionRow, SessionRowView};
use crate::store::Store;
use crate::text::same;

verus! {

broadcast use vstd::string::group_string_axioms;

/// A session that is to be started.
#[derive(Debug)]
pub struct SessionStart {
    pub session_id: Option<String>,
    pub agent: String,
    pub prompt: Option<String>,
    pub model: Option<String>,
    pub metadata: Option<String>,
    pub prompt_output: Option<String>,
    pub tool_name: Option<String>,
    pub intended_file: Option<String>,
    pub activate: bool,
}

/// What `SessionStart` holds.
#[verifier::ext_equal]
pub struct SessionStartView {
    pub session_id: Option<Seq<char>>,
    pub agent: Seq<char>,
    pub prompt: Option<Seq<char>>,
    pub model: Option<Seq<char>>,
    pub metadata: Option<Seq<char>>,
    pub prompt_output: Option<Seq<char>>,
    pub tool_name: Option<Seq<char>>,
    pub intended_file: Option<Seq<char>>,
    pub activate: bool,
}

impl DeepView for SessionStart {
    type V = SessionStartView;

    open spec fn deep_view(&self) -> SessionStartView {
        SessionStartView {
            session_id: self.session_id.deep_view(),
            agent: self.agent@,
            prompt: self.prompt.deep_view(),
            model: self.model.deep_view(),
            metadata: self.metadata.deep_view(),
            prompt_output: self.prompt_output.deep_view(),
            tool_name: self.tool_name.deep_view(),
            intended_file: self.intended_file.deep_view(),
            activate: self.activate,
        }
    }
}

impl Clone for SessionStart {
    fn clone(&self) -> (r: Self)
        ensures
            r.deep_view() == self.deep_view(),
    {
        SessionStart {
            session_id: self.session_id.clone(),
            agent: self.agent.clone(),
            prompt: self.prompt.clone(),
            model: self.model.clone(),
            metadata: self.metadata.clone(),
            prompt_output: self.prompt_output.clone(),
            tool_name: self.tool_name.clone(),
            intended_file: self.intended_file.clone(),
            activate: self.activate,
        }
    }
}

/// What the metadata of a session says.
#[derive(Debug)]
pub struct ParsedSessionMetadata {
    pub session_id: Option<String>,
    pub prompt: Option<String>,
    pub model: Option<String>,
    pub prompt_output: Option<String>,
    pub tool_name: Option<String>,
    pub intended_file: Option<String>,
    pub raw: Option<String>,
}

/// What `ParsedSessionMetadata` holds.
#[verifier::ext_equal]
pub struct ParsedSessionMetadataView {
    pub session_id: Option<Seq<char>>,
    pub prompt: Option<Seq<char>>,
    pub model: Option<Seq<char>>,
    pub prompt_output: Option<Seq<char>>,
    pub tool_name: Option<Seq<char>>,
    pub intended_file: Option<Seq<char>>,
    pub raw: Option<Seq<char>>,
}

impl DeepView for ParsedSessionMetadata {
    type V = ParsedSessionMetadataView;

    open spec fn deep_view(&self) -> ParsedSessionMetadataView {
        ParsedSessionMetadataView {
            session_id: self.session_id.deep_view(),
            prompt: self.prompt.deep_view(),
            model: self.model.deep_view(),
            prompt_output: self.prompt_output.deep_view(),
            tool_name: self.tool_name.deep_view(),
            intended_file: self.intended_file.deep_view(),
            raw: self.raw.deep_view(),
        }
    }
}

impl Clone for ParsedSessionMetadata {
    fn clone(&self) -> (r: Self)
        ensures
            r.deep_view() == self.deep_view(),
    {
        ParsedSessionMetadata {
            session_id: self.session_id.clone(),
            prompt: self.prompt.clone(),
            model: self.model.clone(),
            prompt_output: self.prompt_output.clone(),
            tool_name: self.tool_name.clone(),
            intended_file: self.intended_file.clone(),
            raw: self.raw.clone(),
        }
    }
}

/// Metadata that says nothing.
pub open spec fn no_metadata() -> ParsedSessionMetadataView {
    ParsedSessionMetadataView {
        session_id: None,
        prompt: None,
        model: None,
        prompt_output: None,
        tool_name: None,
        intended_file: None,
        raw: None,
    }
}

impl Default for ParsedSessionMetadata {
    fn default() -> (r: Self)
        ensures
            r.deep_view() == no_metadata(),
    {
        ParsedSessionMetadata {
            session_id: None,
            prompt: None,
            model: None,
            prompt_output: None,
            tool_name: None,
            intended_file: None,
            raw: None,
        }
    }
}

/// What a JSON document says as the metadata of a session.
pub open spec fn metadata_in(t: crate::json::JsonTree) -> ParsedSessionMetadataView {
    ParsedSessionMetadataView {
        session_id: crate::json::text_member(t, "session_id"@),
        prompt: crate::json::text_member(t, "prompt"@),
        model: crate::json::text_member(t, "model"@),
        prompt_output: crate::json::text_member(t, "prompt_output"@),
        tool_name: crate::json::text_member_or(t, "tool_name"@, "tool"@),
        intended_file: crate::json::text_member_or(t, "intended_file"@, "file_path"@),
        raw: Some(crate::json::json_shown(t)),
    }
}

/// What a JSON document says as the metadata of a session.
pub fn metadata_of(value: &serde_json::Value) -> (r: ParsedSessionMetadata)
    ensures
        r.deep_view() == metadata_in(crate::json::tree(*value)),
{
    ParsedSessionMetadata {
        session_id: get_text(value, "session_id"),
        prompt: get_text(value, "prompt"),
        model: get_text(value, "model"),
        prompt_output: get_text(value, "prompt_output"),
        tool_name: get_text_or(value, "tool_name", "tool"),
        intended_file: get_text_or(value, "intended_file", "file_path"),
        raw: Some(shown(value)),
    }
}

/// What a text says as the metadata of a session; `None` where it is no JSON document.
pub open spec fn metadata_read(raw: Option<Seq<char>>) -> Option<ParsedSessionMetadataView> {
    match raw {
        None => Some(no_metadata()),
        Some(text) => match crate::json::json_read(text) {
            Some(t) => Some(metadata_in(t)),
            None => None,
        },
    }
}

/// Reads the metadata of a session.
pub fn parse_metadata(raw: Option<&str>) -> (r: Result<ParsedSessionMetadata, Failure>)
    ensures
        match metadata_read(raw.deep_view()) {
            Some(m) => r matches Ok(p) && p.deep_view() == m,
            None => crate::failure::failed(r, FailureView::Metadata),
        },
{
    match raw {
        None => Ok(ParsedSessionMetadata::default()),
        Some(text) => match read(text) {
            Ok(value) => Ok(metadata_of(&value)),
            Err(_) => Err(Failure::Metadata),
        },
    }
}

// --- starting ----------------------------------------------------------------------------------

/// The row of a session that starts.
pub open spec fn starting_row(s: SessionStartView, id: Seq<char>, ts_ns: i64) -> SessionRowView {
    SessionRowView {
        id,
        agent: s.agent,
        started_at_ns: ts_ns,
        ended_at_ns: None,
        prompt: s.prompt,
        model: s.model,
        metadata: s.metadata,
        prompt_output: s.prompt_output,
    }
}

/// The marker of a session that starts.
pub open spec fn starting_marker(s: SessionStartView, id: Seq<char>, ts_ns: i64) -> ActiveSessionView {
    ActiveSessionView {
        session_id: id,
        agent: s.agent,
        started_at_ns: ts_ns,
        tool_name: s.tool_name,
        intended_file: s.intended_file,
    }
}

/// The id of a session that starts: the one that was asked for, or a fresh one.
pub open spec fn starting_id(s: SessionStartView, fresh: Seq<char>) -> Seq<char> {
    match s.session_id {
        Some(id) => id,
        None => "session-"@ + fresh,
    }
}

/// What starting a session changes: it is reported, and, where that was asked for, its marker is
/// written.
pub open spec fn starting(i: Image, s: SessionStartView, id: Seq<char>, ts_ns: i64) -> Seq<
    EffectView,
> {
    let reported = seq![
        EffectView::PutSession(
            crate::store::changes::upserted(
                crate::store::changes::session_with(i, id),
                starting_row(s, id, ts_ns),
            ),
        ),
    ];
    if s.activate {
        reported.push(EffectView::WriteMarker(starting_marker(s, id, ts_ns)))
    } else {
        reported
    }
}

/// Starts a session at a given time; `fresh` makes its id where none was asked for. Gives the id.
pub fn start_at(store: &mut Store, start: SessionStart, ts_ns: i64, fresh: &str) -> (r: String)
    requires
        old(store).wf(),
    ensures
        r@ == starting_id(start.deep_view(), fresh@),
        Store::did(
            *old(store),
            *final(store),
            starting(old(store).image(), start.deep_view(), r@, ts_ns),
        ),
{
    let ghost before = *store;
    let ghost s = start.deep_view();
    let id: String = match start.session_id {
        Some(id) => id,
        None => joined("session-", fresh),
    };
    let row = SessionRow {
        id: id.clone(),
        agent: start.agent.clone(),
        started_at_ns: ts_ns,
        ended_at_ns: None,
        prompt: start.prompt,
        model: start.model,
        metadata: start.metadata,
        prompt_output: start.prompt_output,
    };
    assert(row.deep_view() == starting_row(s, id@, ts_ns));
    store.upsert_session(&row);
    let ghost reported = *store;
    if start.activate {
        let marker = ActiveSession {
            session_id: id.clone(),
            agent: start.agent,
            started_at_ns: ts_ns,
            tool_name: start.tool_name,
            intended_file: start.intended_file,
        };
        assert(marker.deep_view() == starting_marker(s, id@, ts_ns));
        store.write_marker(marker);
        proof {
            let put = EffectView::PutSession(
                crate::store::changes::upserted(
                    crate::store::changes::session_with(before.image(), id@),
                    starting_row(s, id@, ts_ns),
                ),
            );
            let mark = EffectView::WriteMarker(starting_marker(s, id@, ts_ns));
            Store::lemma_did_both(before, reported, *store, seq![put], seq![mark]);
            assert(seq![put] + seq![mark] =~= seq![put].push(mark));
        }
    }
    id
}

/// Whether a session was started, at whatever time and with whatever fresh id.
pub open spec fn starts(before: Store, after: Store, s: SessionStartView, id: Seq<char>) -> bool {
    &&& exists|fresh: Seq<char>| #[trigger]
        crate::outside::is_hex_text(fresh, 32) && id == starting_id(s, fresh)
    &&& exists|ts_ns: i64|
        Store::did(before, after, #[trigger] starting(before.image(), s, id, ts_ns))
}

/// Starts a session, and gives its id.
pub fn start(store: &mut Store, session: SessionStart) -> (r: String)
    requires
        old(store).wf(),
    ensures
        starts(*old(store), *final(store), session.deep_view(), r@),
{
    let ts_ns: i64 = now_ns();
    let fresh = random_hex();
    start_at(store, session, ts_ns, fresh.as_str())
}

// --- ending ------------------------------------------------------------------------------------

/// What ending a session changes, and why it failed: what is reported of it is noted, and, where
/// that was asked for, the marker is removed if it names the session. `place` is where the marker
/// lies.
pub open spec fn ending(
    i: Image,
    id: Seq<char>,
    parsed: Option<ParsedSessionMetadataView>,
    clear_active: bool,
    ts_ns: i64,
    place: Seq<char>,
) -> (Seq<EffectView>, Option<FailureView>) {
    let m = match parsed {
        Some(p) => p,
        None => no_metadata(),
    };
    let noted = match crate::store::changes::session_with(i, id) {
        Some(known) => seq![
            EffectView::PutSession(
                crate::store::changes::ended(
                    known,
                    ts_ns,
                    m.prompt,
                    m.model,
                    crate::store::changes::clipped(m.prompt_output),
                    m.raw,
                ),
            ),
        ],
        None => Seq::empty(),
    };
    if !clear_active {
        (noted, None)
    } else {
        match i.marker {
            MarkerView::Unreadable => (noted, Some(FailureView::Marker { path: place })),
            MarkerView::Active(a) => if a.session_id == id {
                (noted.push(EffectView::ClearMarker), None)
            } else {
                (noted, None)
            },
            MarkerView::Absent => (noted, None),
        }
    }
}

/// Where the marker of the active session lies.
pub open spec fn marker_place(store: Store) -> Seq<char> {
    crate::paths::joined(store.layout().data_dir, "active-session.json"@)
}

/// Whether a session was ended at a time and came out as it should.
pub open spec fn ends_at(
    before: Store,
    after: Store,
    id: Seq<char>,
    parsed: Option<ParsedSessionMetadataView>,
    clear_active: bool,
    ts_ns: i64,
    outcome: Option<FailureView>,
) -> bool {
    let run = ending(before.image(), id, parsed, clear_active, ts_ns, marker_place(before));
    &&& Store::did(before, after, run.0)
    &&& outcome == run.1
}

/// Whether a session was ended, at whatever time, and came out as it should.
pub open spec fn ends(
    before: Store,
    after: Store,
    id: Seq<char>,
    parsed: Option<ParsedSessionMetadataView>,
    clear_active: bool,
    outcome: Option<FailureView>,
) -> bool {
    exists|ts_ns: i64| #[trigger]
        ends_at(before, after, id, parsed, clear_active, ts_ns, outcome)
}

fn slice_of(s: &Option<String>) -> (r: Option<&str>)
    ensures
        r.deep_view() == s.deep_view(),
{
    match s {
        Some(x) => Some(x.as_str()),
        None => None,
    }
}

/// Ends a session at a given time.
pub fn end_at(
    store: &mut Store,
    session_id: &str,
    parsed: Option<&ParsedSessionMetadata>,
    clear_active: bool,
    ts_ns: i64,
) -> (r: Result<(), Failure>)
    requires
        old(store).wf(),
    ensures
        ends_at(
            *old(store),
            *final(store),
            session_id@,
            parsed.deep_view(),
            clear_active,
            ts_ns,
            crate::failure::outcome(r),
        ),
{
    let ghost before = *store;
    let ghost i = store.image();
    let none = ParsedSessionMetadata::default();
    let m: &ParsedSessionMetadata = match parsed {
        Some(p) => p,
        None => &none,
    };
    store.end_session(
        session_id,
        ts_ns,
        slice_of(&m.prompt),
        slice_of(&m.model),
        slice_of(&m.prompt_output),
        slice_of(&m.raw),
    );
    let ghost ended = *store;
    let ghost noted = ending(i, session_id@, parsed.deep_view(), false, ts_ns, Seq::empty()).0;
    assert(Store::did(before, ended, noted));
    proof {
        if noted.len() > 0 {
            crate::image::lemma_replay_few(i, noted[0], noted[0]);
            assert(noted =~= seq![noted[0]]);
        }
        assert(ended.image().marker == i.marker);
    }
    if clear_active {
        let clear = match store.marker() {
            Marker::Unreadable => {
                return Err(Failure::Marker { path: active_session_path(store.paths()) });
            },
            Marker::Active(a) => same(a.session_id.as_str(), session_id),
            Marker::Absent => false,
        };
        if clear {
            store.clear_marker();
            proof {
                Store::lemma_did_both(
                    before,
                    ended,
                    *store,
                    noted,
                    seq![EffectView::ClearMarker],
                );
                assert(noted + seq![EffectView::ClearMarker] =~= noted.push(
                    EffectView::ClearMarker,
                ));
            }
        }
    }
    Ok(())
}

/// Ends a session.
pub fn end(
    store: &mut Store,
    session_id: &str,
    parsed: Option<&ParsedSessionMetadata>,
    clear_active: bool,
) -> (r: Result<(), Failure>)
    requires
        old(store).wf(),
    ensures
        ends(
            *old(store),
            *final(store),
            session_id@,
            parsed.deep_view(),
            clear_active,
            crate::failure::outcome(r),
        ),
{
    let ts_ns: i64 = now_ns();
    end_at(store, session_id, parsed, clear_active, ts_ns)
}

// --- laws --------------------------------------------------------------------------------------

/// A session that is started with a marker is the active one and is known; ending it then removes
/// the marker and leaves it known as ended.
pub proof fn law_start_then_end(
    i: Image,
    s: SessionStartView,
    id: Seq<char>,
    ts_ns: i64,
    parsed: Option<ParsedSessionMetadataView>,
    later: i64,
    place: Seq<char>,
)
    requires
        crate::store::sound(i),
        s.activate,
    ensures
        ({
            let j = crate::image::replay(i, starting(i, s, id, ts_ns));
            let run = ending(j, id, parsed, true, later, place);
            let k = crate::image::replay(j, run.0);
            &&& j.marker == MarkerView::Active(starting_marker(s, id, ts_ns))
            &&& crate::store::changes::session_with(j, id) is Some
            &&& crate::store::changes::session_with(j, id)->0.agent == s.agent
            &&& run.1 is None
            &&& k.marker == MarkerView::Absent
            &&& crate::store::changes::session_with(k, id) is Some
            &&& crate::store::changes::session_with(k, id)->0.ended_at_ns == Some(later)
            &&& crate::store::changes::session_with(k, id)->0.agent == s.agent
        }),
{
    let started = starting(i, s, id, ts_ns);
    let j = crate::image::replay(i, started);
    crate::image::lemma_replay_few(i, started[0], started[1]);
    assert(started =~= seq![started[0], started[1]]);
    let row = crate::store::changes::upserted(
        crate::store::changes::session_with(i, id),
        starting_row(s, id, ts_ns),
    );
    crate::store::laws::lemma_put_is_found(i.sessions, row);
    lemma_session_with(j, row);
    let run = ending(j, id, parsed, true, later, place);
    let k = crate::image::replay(j, run.0);
    crate::image::lemma_replay_few(j, run.0[0], run.0[1]);
    assert(run.0 =~= seq![run.0[0], run.0[1]]);
    let done = run.0[0]->PutSession_0;
    crate::store::laws::lemma_put_is_found(j.sessions, done);
    lemma_session_with(k, done);
}

/// Ending the session that the marker names removes the marker, and leaves of the session what was
/// known, with what is reported of it and the time of its end.
pub proof fn law_end_closes_the_active_session(
    i: Image,
    id: Seq<char>,
    parsed: Option<ParsedSessionMetadataView>,
    ts_ns: i64,
    place: Seq<char>,
)
    requires
        crate::store::changes::session_with(i, id) is Some,
        i.marker is Active,
        i.marker->Active_0.session_id == id,
    ensures
        ({
            let m = match parsed {
                Some(p) => p,
                None => no_metadata(),
            };
            let known = crate::store::changes::session_with(i, id)->0;
            let run = ending(i, id, parsed, true, ts_ns, place);
            let j = crate::image::replay(i, run.0);
            &&& run.1 is None
            &&& j.marker == MarkerView::Absent
            &&& crate::store::changes::session_with(j, id) == Some(
                crate::store::changes::ended(
                    known,
                    ts_ns,
                    m.prompt,
                    m.model,
                    crate::store::changes::clipped(m.prompt_output),
                    m.raw,
                ),
            )
        }),
{
    let known = crate::store::changes::session_with(i, id)->0;
    assert(known.id == id) by {
        let k = choose|k: int| 0 <= k < i.sessions.len() && (#[trigger] i.sessions[k]).id == id;
        assert(i.sessions[k].id == id);
    }
    let run = ending(i, id, parsed, true, ts_ns, place);
    let j = crate::image::replay(i, run.0);
    crate::image::lemma_replay_few(i, run.0[0], run.0[1]);
    assert(run.0 =~= seq![run.0[0], run.0[1]]);
    let done = run.0[0]->PutSession_0;
    crate::store::laws::lemma_put_is_found(i.sessions, done);
    lemma_session_with(j, done);
}

pub(crate) proof fn lemma_session_with(i: Image, row: SessionRowView)
    requires
        crate::image::has_session(i.sessions, row.id),
        forall|k: int|
            0 <= k < i.sessions.len() && (#[trigger] i.sessions[k]).id == row.id ==> i.sessions[k]
                == row,
    ensures
        crate::store::changes::session_with(i, row.id) == Some(row),
{
    let k = choose|k: int| 0 <= k < i.sessions.len() && i.sessions[k].id == row.id;
    let j = choose|j: int| 0 <= j < i.sessions.len() && (#[trigger] i.sessions[j]).id == row.id;
    assert(i.sessions[j].id == row.id);
    assert(i.sessions[k].id == row.id);
}

/// Ending a session leaves the marker of another session alone.
pub proof fn law_end_spares_other_markers(
    i: Image,
    id: Seq<char>,
    parsed: Option<ParsedSessionMetadataView>,
    clear_active: bool,
    ts_ns: i64,
    place: Seq<char>,
)
    requires
        i.marker matches MarkerView::Active(a) ==> a.session_id != id,
    ensures
        crate::image::replay(i, ending(i, id, parsed, clear_active, ts_ns, place).0).marker
            == i.marker,
{
    let e = ending(i, id, parsed, clear_active, ts_ns, place).0;
    if e.len() > 0 {
        crate::image::lemma_replay_few(i, e[0], e[0]);
        assert(e =~= seq![e[0]]);
    }
}

/// A session that starts is known as it was asked for, or, where it was known, by what is known and
/// what was asked for. It becomes the active one where that was asked for, and else the marker
/// stays. Nothing else changes.
pub proof fn law_a_session_starts_as_asked_for(
    i: Image,
    s: SessionStartView,
    id: Seq<char>,
    ts_ns: i64,
)
    requires
        crate::store::sound(i),
    ensures
        ({
            let j = crate::image::replay(i, starting(i, s, id, ts_ns));
            let known = crate::store::changes::session_with(i, id);
            let row = crate::store::changes::session_with(j, id)->0;
            &&& crate::store::changes::session_with(j, id) is Some
            &&& row.id == id && row.agent == s.agent
            &&& known is None ==> row == (SessionRowView {
                id,
                agent: s.agent,
                started_at_ns: ts_ns,
                ended_at_ns: None,
                prompt: s.prompt,
                model: s.model,
                metadata: s.metadata,
                prompt_output: s.prompt_output,
            })
            &&& known matches Some(k) ==> {
                &&& row.started_at_ns == k.started_at_ns
                &&& row.ended_at_ns == k.ended_at_ns
                &&& s.prompt is Some ==> row.prompt == s.prompt
                &&& s.prompt is None ==> row.prompt == k.prompt
                &&& s.model is Some ==> row.model == s.model
                &&& s.model is None ==> row.model == k.model
                &&& s.metadata is Some ==> row.metadata == s.metadata
                &&& s.metadata is None ==> row.metadata == k.metadata
            }
            &&& s.activate ==> j.marker == MarkerView::Active(
                ActiveSessionView {
                    session_id: id,
                    agent: s.agent,
                    started_at_ns: ts_ns,
                    tool_name: s.tool_name,
                    intended_file: s.intended_file,
                },
            )
            &&& !s.activate ==> j.marker == i.marker
            &&& j == (Image { sessions: j.sessions, marker: j.marker, ..i })
        }),
{
    let e = starting(i, s, id, ts_ns);
    let j = crate::image::replay(i, e);
    let row = starting_row(s, id, ts_ns);
    crate::store::outcomes::law_a_session_is_known_as_reported(i, row);
    crate::image::lemma_replay_few(i, e[0], e[1]);
    let middle = crate::image::apply(i, e[0]);
    if s.activate {
        assert(e =~= seq![e[0], e[1]]);
    } else {
        assert(e =~= seq![e[0]]);
    }
    assert(crate::store::changes::session_with(j, id) == crate::store::changes::session_with(
        middle,
        id,
    ));
}

/// Ending a session that is not known changes no session; ending one leaves the others as they
/// are, and nothing but the sessions and the marker changes.
pub proof fn law_ending_touches_one_session(
    i: Image,
    id: Seq<char>,
    parsed: Option<ParsedSessionMetadataView>,
    clear_active: bool,
    ts_ns: i64,
    place: Seq<char>,
)
    requires
        crate::store::sound(i),
    ensures
        ({
            let j = crate::image::replay(i, ending(i, id, parsed, clear_active, ts_ns, place).0);
            &&& j == (Image { sessions: j.sessions, marker: j.marker, ..i })
            &&& crate::store::changes::session_with(i, id) is None ==> j.sessions == i.sessions
            &&& j.sessions.len() == i.sessions.len()
            &&& forall|k: int|
                0 <= k < i.sessions.len() && (#[trigger] i.sessions[k]).id != id ==> j.sessions[k]
                    == i.sessions[k]
            &&& !clear_active ==> j.marker == i.marker
        }),
{
    let e = ending(i, id, parsed, clear_active, ts_ns, place).0;
    let j = crate::image::replay(i, e);
    crate::image::lemma_replay_few(i, e[0], e[1]);
    if e.len() == 1 {
        assert(e =~= seq![e[0]]);
    } else if e.len() == 2 {
        assert(e =~= seq![e[0], e[1]]);
    }
    if let Some(known) = crate::store::changes::session_with(i, id) {
        assert(known.id == id) by {
            let k = choose|k: int| 0 <= k < i.sessions.len() && (#[trigger] i.sessions[k]).id == id;
            assert(i.sessions[k].id == id);
        }
    }
}

/// What metadata says is what stands under its keys; the tool and the file are looked for under
/// two names each, the second only where the first is not there.
pub proof fn law_metadata_is_read_by_its_keys(m: Map<Seq<char>, crate::json::JsonTree>)
    ensures
        ({
            let r = metadata_in(crate::json::JsonTree::Object(m));
            &&& r.session_id == text_under(m, "session_id"@)
            &&& r.prompt == text_under(m, "prompt"@)
            &&& r.model == text_under(m, "model"@)
            &&& r.prompt_output == text_under(m, "prompt_output"@)
            &&& r.tool_name == (if m.contains_key("tool_name"@) {
                text_under(m, "tool_name"@)
            } else {
                text_under(m, "tool"@)
            })
            &&& r.intended_file == (if m.contains_key("intended_file"@) {
                text_under(m, "intended_file"@)
            } else {
                text_under(m, "file_path"@)
            })
            &&& r.raw == Some(crate::json::json_shown(crate::json::JsonTree::Object(m)))
        }),
{
}

/// The text under a key.
pub open spec fn text_under(m: Map<Seq<char>, crate::json::JsonTree>, key: Seq<char>) -> Option<
    Seq<char>,
> {
    if m.contains_key(key) && m[key] is Text {
        Some(m[key]->Text_0)
    } else {
        None
    }
}

/// A session that starts has the id that was asked for, or a fresh one; and metadata that is not
/// given says nothing.
pub proof fn law_ids_are_those_asked_for(
    s: SessionStartView,
    fresh: Seq<char>,
    raw: Seq<char>,
)
    ensures
        s.session_id matches Some(id) ==> starting_id(s, fresh) == id,
        s.session_id is None ==> starting_id(s, fresh) == "session-"@ + fresh,
        metadata_read(None) == Some(
            ParsedSessionMetadataView {
                session_id: None,
                prompt: None,
                model: None,
                prompt_output: None,
                tool_name: None,
                intended_file: None,
                raw: None,
            },
        ),
        metadata_read(Some(raw)) is None <==> crate::json::json_read(raw) is None,
        crate::json::json_read(raw) matches Some(t) ==> metadata_read(Some(raw)) == Some(
            metadata_in(t),
        ),
{
}

/// After a session was started: it is known for its agent, and it is the active one where that was
/// asked for; its id is the one that was asked for.
pub proof fn law_after_a_session_is_started(
    before: crate::store::Store,
    after: crate::store::Store,
    s: SessionStartView,
    id: Seq<char>,
)
    requires
        before.wf(),
        starts(before, after, s, id),
    ensures
        s.session_id is Some ==> s.session_id == Some(id),
        crate::store::changes::session_with(after.image(), id) is Some,
        (crate::store::changes::session_with(after.image(), id)->0).agent == s.agent,
        s.activate ==> after.image().marker is Active && after.image().marker->Active_0.session_id
            == id && after.image().marker->Active_0.agent == s.agent,
        !s.activate ==> after.image().marker == before.image().marker,
        after.image().events == before.image().events,
{
    let i = before.image();
    let ts_ns = choose|ts_ns: i64|
        crate::store::Store::did(before, after, #[trigger] starting(i, s, id, ts_ns));
    law_a_session_starts_as_asked_for(i, s, id, ts_ns);
    let fresh = choose|fresh: Seq<char>| #[trigger]
        crate::outside::is_hex_text(fresh, 32) && id == starting_id(s, fresh);
}

/// After the active session was ended: it is known as ended, with what was reported of it, and
/// there is no marker any more.
pub proof fn law_after_a_session_is_ended(
    before: crate::store::Store,
    after: crate::store::Store,
    id: Seq<char>,
    parsed: Option<ParsedSessionMetadataView>,
    outcome: Option<FailureView>,
)
    requires
        before.wf(),
        ends(before, after, id, parsed, true, outcome),
        crate::store::changes::session_with(before.image(), id) is Some,
        before.image().marker is Active,
        before.image().marker->Active_0.session_id == id,
    ensures
        ({
            let known = crate::store::changes::session_with(before.image(), id)->0;
            let row = crate::store::changes::session_with(after.image(), id)->0;
            &&& outcome is None
            &&& after.image().marker is Absent
            &&& crate::store::changes::session_with(after.image(), id) is Some
            &&& row.ended_at_ns is Some
            &&& row.agent == known.agent && row.started_at_ns == known.started_at_ns
            &&& parsed is None ==> row.prompt == known.prompt && row.model == known.model
                && row.metadata == known.metadata && row.prompt_output == known.prompt_output
            &&& parsed matches Some(m) ==> {
                &&& m.prompt is Some ==> row.prompt == m.prompt
                &&& m.prompt is None ==> row.prompt == known.prompt
                &&& m.model is Some ==> row.model == m.model
                &&& m.model is None ==> row.model == known.model
            }
            &&& after.image().events == before.image().events
        }),
{
    let i = before.image();
    let place = marker_place(before);
    let ts_ns = choose|ts_ns: i64| #[trigger]
        ends_at(before, after, id, parsed, true, ts_ns, outcome);
    law_end_closes_the_active_session(i, id, parsed, ts_ns, place);
    law_ending_touches_one_session(i, id, parsed, true, ts_ns, place);
}

} // verus!
