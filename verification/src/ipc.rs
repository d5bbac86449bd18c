//! The control protocol: what can be asked of a running daemon, and what it answers.
use vstd::prelude::*;

pub mod laws;

use crate::failure::{joined, Failure, FailureView};
use crate::image::{Marker, MarkerView};
use crate::paths::active_session_path;
use crate::restore::{
    diff_event_text, oops, oops_plan, restore_latest_change_to_file, restore_pin, restore_session,
    restore_to_event, show_event_bytes,
};
use crate::rows::{
    ActiveSession, ActiveSessionView, EventRow, EventRowView, SessionRow, SessionRowView,
};
use crate::session::{
    end, parse_metadata, start, ParsedSessionMetadata, ParsedSessionMetadataView, SessionStart,
    SessionStartView,
};
use crate::store::Store;

verus! {

broadcast use vstd::string::group_string_axioms;

/// What can be asked of a daemon.
#[allow(inconsistent_fields)]
#[derive(Debug)]
pub enum Request {
    /// How the daemon is.
    Status,
    /// Start a session.
    SessionStart { agent: String, metadata: Option<String> },
    /// End a session.
    SessionEnd { session_id: String, metadata: Option<String> },
    /// Stop the daemon.
    Shutdown,
    /// List the sessions.
    Sessions { limit: usize },
    /// List the events that pass some filters.
    FilteredEvents { agent: Option<String>, path_substring: Option<String>, since_ns: Option<i64>, limit: usize },
    /// List the events of a session.
    SessionEvents { session_id: String },
    /// Show the differences that an event made.
    DiffEvent { event_id: i64 },
    /// Show the content of a file at an event.
    ShowEvent { event_id: i64, before: bool, after: bool },
    /// Say who wrote the lines of a file.
    BlameFile { path: String },
    /// Undo an event.
    RestoreEvent { event_id: i64 },
    /// Undo the last change to a file.
    RestoreFile { path: String },
    /// Roll a session back.
    RestoreSession { session_id: String },
    /// Restore a pin.
    RestorePin { label: String },
    /// Say what an `oops` would undo.
    OopsPlan { window_ns: i64 },
    /// Undo the last burst of changes.
    OopsApply { window_ns: i64 },
}

/// What `Request` holds.
#[allow(inconsistent_fields)]
pub enum RequestView {
    Status,
    SessionStart { agent: Seq<char>, metadata: Option<Seq<char>> },
    SessionEnd { session_id: Seq<char>, metadata: Option<Seq<char>> },
    Shutdown,
    Sessions { limit: usize },
    FilteredEvents { agent: Option<Seq<char>>, path_substring: Option<Seq<char>>, since_ns: Option<i64>, limit: usize },
    SessionEvents { session_id: Seq<char> },
    DiffEvent { event_id: i64 },
    ShowEvent { event_id: i64, before: bool, after: bool },
    BlameFile { path: Seq<char> },
    RestoreEvent { event_id: i64 },
    RestoreFile { path: Seq<char> },
    RestoreSession { session_id: Seq<char> },
    RestorePin { label: Seq<char> },
    OopsPlan { window_ns: i64 },
    OopsApply { window_ns: i64 },
}

impl DeepView for Request {
    type V = RequestView;

    open spec fn deep_view(&self) -> RequestView {
        match self {
            Request::Status => RequestView::Status,
            Request::SessionStart { agent, metadata } => RequestView::SessionStart {
                agent: agent@,
                metadata: metadata.deep_view(),
            },
            Request::SessionEnd { session_id, metadata } => RequestView::SessionEnd {
                session_id: session_id@,
                metadata: metadata.deep_view(),
            },
            Request::Shutdown => RequestView::Shutdown,
            Request::Sessions { limit } => RequestView::Sessions {
                limit: *limit,
            },
            Request::FilteredEvents { agent, path_substring, since_ns, limit } => RequestView::FilteredEvents {
                agent: agent.deep_view(),
                path_substring: path_substring.deep_view(),
                since_ns: *since_ns,
                limit: *limit,
            },
            Request::SessionEvents { session_id } => RequestView::SessionEvents {
                session_id: session_id@,
            },
            Request::DiffEvent { event_id } => RequestView::DiffEvent {
                event_id: *event_id,
            },
            Request::ShowEvent { event_id, before, after } => RequestView::ShowEvent {
                event_id: *event_id,
                before: *before,
                after: *after,
            },
            Request::BlameFile { path } => RequestView::BlameFile {
                path: path@,
            },
            Request::RestoreEvent { event_id } => RequestView::RestoreEvent {
                event_id: *event_id,
            },
            Request::RestoreFile { path } => RequestView::RestoreFile {
                path: path@,
            },
            Request::RestoreSession { session_id } => RequestView::RestoreSession {
                session_id: session_id@,
            },
            Request::RestorePin { label } => RequestView::RestorePin {
                label: label@,
            },
            Request::OopsPlan { window_ns } => RequestView::OopsPlan {
                window_ns: *window_ns,
            },
            Request::OopsApply { window_ns } => RequestView::OopsApply {
                window_ns: *window_ns,
            },
        }
    }
}

/// What a daemon answers.
#[allow(inconsistent_fields)]
#[derive(Debug)]
pub enum Response {
    /// How the daemon is.
    Status { events: i64, active_session: Option<ActiveSession> },
    /// A session was started.
    SessionStarted { session_id: String },
    /// A session was ended.
    SessionEnded,
    /// The daemon stops.
    ShutdownAccepted,
    /// Some sessions.
    Sessions { sessions: Vec<SessionRow> },
    /// Some events.
    Events { events: Vec<EventRow> },
    /// Some text.
    Text { content: String },
    /// Some content.
    Bytes { bytes: Vec<u8> },
    /// An event.
    Event { event: EventRow },
    /// Some paths.
    Paths { paths: Vec<String> },
    /// What is or would be undone.
    Plan { items: Vec<(String, EventRow)> },
    /// That the request failed.
    Error { message: String },
}

/// What `Response` holds.
#[allow(inconsistent_fields)]
pub enum ResponseView {
    Status { events: i64, active_session: Option<ActiveSessionView> },
    SessionStarted { session_id: Seq<char> },
    SessionEnded,
    ShutdownAccepted,
    Sessions { sessions: Seq<SessionRowView> },
    Events { events: Seq<EventRowView> },
    Text { content: Seq<char> },
    Bytes { bytes: Seq<u8> },
    Event { event: EventRowView },
    Paths { paths: Seq<Seq<char>> },
    Plan { items: Seq<(Seq<char>, EventRowView)> },
    Error { message: Seq<char> },
}

impl DeepView for Response {
    type V = ResponseView;

    open spec fn deep_view(&self) -> ResponseView {
        match self {
            Response::Status { events, active_session } => ResponseView::Status {
                events: *events,
                active_session: active_session.deep_view(),
            },
            Response::SessionStarted { session_id } => ResponseView::SessionStarted {
                session_id: session_id@,
            },
            Response::SessionEnded => ResponseView::SessionEnded,
            Response::ShutdownAccepted => ResponseView::ShutdownAccepted,
            Response::Sessions { sessions } => ResponseView::Sessions {
                sessions: sessions.deep_view(),
            },
            Response::Events { events } => ResponseView::Events {
                events: events.deep_view(),
            },
            Response::Text { content } => ResponseView::Text {
                content: content@,
            },
            Response::Bytes { bytes } => ResponseView::Bytes {
                bytes: bytes@,
            },
            Response::Event { event } => ResponseView::Event {
                event: event.deep_view(),
            },
            Response::Paths { paths } => ResponseView::Paths {
                paths: paths.deep_view(),
            },
            Response::Plan { items } => ResponseView::Plan {
                items: items.deep_view(),
            },
            Response::Error { message } => ResponseView::Error {
                message: message@,
            },
        }
    }
}

/// The answer to a request that failed.
pub fn error_response(err: &str) -> (r: Response)
    ensures
        r.deep_view() == (ResponseView::Error { message: "daemon control error: "@ + err@ }),
{
    Response::Error { message: joined("daemon control error: ", err) }
}

/// The session that a request asks to start.
pub open spec fn requested_start(agent: Seq<char>, m: ParsedSessionMetadataView) -> SessionStartView {
    SessionStartView {
        session_id: m.session_id,
        agent,
        prompt: m.prompt,
        model: m.model,
        metadata: m.raw,
        prompt_output: m.prompt_output,
        tool_name: m.tool_name,
        intended_file: m.intended_file,
        activate: true,
    }
}

/// The session that metadata asks to start for an agent.
pub fn session_from(agent: String, m: ParsedSessionMetadata) -> (r: SessionStart)
    ensures
        r.deep_view() == requested_start(agent@, m.deep_view()),
{
    SessionStart {
        session_id: m.session_id,
        agent,
        prompt: m.prompt,
        model: m.model,
        metadata: m.raw,
        prompt_output: m.prompt_output,
        tool_name: m.tool_name,
        intended_file: m.intended_file,
        activate: true,
    }
}

/// Whether an answer is the given one.
pub open spec fn is_answer(r: Result<Response, Failure>, a: ResponseView) -> bool {
    r matches Ok(x) && x.deep_view() == a
}

/// The answer to a question, or why there is none.
pub open spec fn answer_of(
    before: Store,
    q: RequestView,
    blame: Option<Seq<char>>,
) -> Result<ResponseView, FailureView> {
    let i = before.image();
    match q {
        RequestView::Status => match i.marker {
            MarkerView::Unreadable => Err(
                FailureView::Marker { path: crate::session::marker_place(before) },
            ),
            MarkerView::Active(a) => Ok(
                ResponseView::Status { events: i.events.len() as i64, active_session: Some(a) },
            ),
            MarkerView::Absent => Ok(
                ResponseView::Status { events: i.events.len() as i64, active_session: None },
            ),
        },
        RequestView::Sessions { limit } => Ok(
            ResponseView::Sessions {
                sessions: crate::timeline::at_most(
                    crate::timeline::sessions_newest(i),
                    limit as nat,
                ),
            },
        ),
        RequestView::FilteredEvents { agent, path_substring, since_ns, limit } => Ok(
            ResponseView::Events {
                events: crate::timeline::filtered(
                    i,
                    agent,
                    path_substring,
                    since_ns,
                    limit as nat,
                ),
            },
        ),
        RequestView::SessionEvents { session_id } => Ok(
            ResponseView::Events { events: crate::timeline::session_events(i, session_id) },
        ),
        RequestView::DiffEvent { event_id } => match crate::restore::preview::diff_of(
            i,
            event_id,
        ) {
            Ok(content) => Ok(ResponseView::Text { content }),
            Err(f) => Err(f),
        },
        RequestView::ShowEvent { event_id, before, after } => match crate::restore::preview::side_of(
            i,
            event_id,
            before,
            after,
        ) {
            Ok(bytes) => Ok(ResponseView::Bytes { bytes }),
            Err(f) => Err(f),
        },
        RequestView::BlameFile { path } => match blame {
            Some(content) => Ok(ResponseView::Text { content }),
            None => Err(FailureView::NoBlame { path }),
        },
        RequestView::OopsPlan { window_ns } => Ok(
            ResponseView::Plan { items: crate::restore::bulk::oops_of(i, window_ns) },
        ),
        _ => Ok(ResponseView::ShutdownAccepted),
    }
}

/// Whether a request is a question: it changes nothing.
pub open spec fn is_question(q: RequestView) -> bool {
    match q {
        RequestView::SessionStart { .. } => false,
        RequestView::SessionEnd { .. } => false,
        RequestView::RestoreEvent { .. } => false,
        RequestView::RestoreFile { .. } => false,
        RequestView::RestoreSession { .. } => false,
        RequestView::RestorePin { .. } => false,
        RequestView::OopsApply { .. } => false,
        _ => true,
    }
}

/// Whether a request changed the store and was answered as it should. `blame` is what a report on
/// the lines of the file says, where the request asks for one.
pub open spec fn answers(
    before: Store,
    after: Store,
    q: RequestView,
    blame: Option<Seq<char>>,
    r: Result<Response, Failure>,
) -> bool {
    let i = before.image();
    let outcome = crate::failure::outcome(r);
    match q {
        RequestView::SessionStart { agent, metadata } => match crate::session::metadata_read(
            metadata,
        ) {
            Some(m) => exists|id: Seq<char>| #[trigger]
                crate::session::starts(before, after, requested_start(agent, m), id) && is_answer(
                    r,
                    ResponseView::SessionStarted { session_id: id },
                ),
            None => refuses(before, after, FailureView::Metadata, r),
        },
        RequestView::SessionEnd { session_id, metadata } => match crate::session::metadata_read(
            metadata,
        ) {
            Some(m) => {
                &&& crate::session::ends(before, after, session_id, Some(m), true, outcome)
                &&& r is Ok ==> is_answer(r, ResponseView::SessionEnded)
            },
            None => refuses(before, after, FailureView::Metadata, r),
        },
        RequestView::RestoreEvent { event_id } => match crate::timeline::find_event(i, event_id) {
            Some(e) => {
                &&& crate::restore::restores_file(before, after, e.path, e.before_hash, outcome)
                &&& r is Ok ==> crate::restore::rescued(i, after.image(), e.path)
                &&& r is Ok ==> is_answer(r, ResponseView::Event { event: e })
            },
            None => refuses(before, after, FailureView::NoEvent { id: event_id }, r),
        },
        RequestView::RestoreFile { path } => match crate::timeline::latest_user_at(i, path) {
            Some(e) => {
                &&& crate::restore::restores_file(before, after, e.path, e.before_hash, outcome)
                &&& r is Ok ==> crate::restore::rescued(i, after.image(), e.path)
                &&& r is Ok ==> is_answer(r, ResponseView::Event { event: e })
            },
            None => refuses(before, after, FailureView::NoUndoable { path }, r),
        },
        RequestView::RestoreSession { session_id } => {
            let targets = crate::restore::bulk::session_targets(i, session_id);
            &&& crate::restore::bulk::restores_together(before, after, targets, outcome)
            &&& r is Ok ==> crate::restore::bulk::all_rescued(i, after.image(), targets)
            &&& r is Ok ==> is_answer(
                r,
                ResponseView::Paths { paths: crate::restore::bulk::paths_of(targets) },
            )
        },
        RequestView::RestorePin { label } => match crate::timeline::find_pin(i, label) {
            Some(pin) => {
                let targets = crate::restore::bulk::pin_targets(i, pin.event_id);
                &&& crate::restore::bulk::restores_together(before, after, targets, outcome)
                &&& r is Ok ==> crate::restore::bulk::all_rescued(i, after.image(), targets)
                &&& r is Ok ==> is_answer(
                    r,
                    ResponseView::Paths { paths: crate::restore::bulk::paths_of(targets) },
                )
            },
            None => refuses(before, after, FailureView::NoPin { label }, r),
        },
        RequestView::OopsApply { window_ns } => {
            let plan = crate::restore::bulk::oops_of(i, window_ns);
            &&& crate::restore::bulk::restores_files(
                before,
                after,
                crate::restore::bulk::undone(plan),
                outcome,
            )
            &&& r is Ok ==> crate::restore::bulk::all_rescued(
                i,
                after.image(),
                crate::restore::bulk::undone(plan),
            )
            &&& r is Ok ==> is_answer(r, ResponseView::Plan { items: plan })
        },
        _ => {
            &&& Store::did(before, after, Seq::empty())
            &&& match answer_of(before, q, blame) {
                Ok(a) => is_answer(r, a),
                Err(f) => crate::failure::failed(r, f),
            }
        },
    }
}

/// Whether a request was refused: it changed nothing and failed in the given way.
pub open spec fn refuses(
    before: Store,
    after: Store,
    f: FailureView,
    r: Result<Response, Failure>,
) -> bool {
    Store::did(before, after, Seq::empty()) && crate::failure::failed(r, f)
}

fn slice_of(s: &Option<String>) -> (r: Option<&str>)
    ensures
        r.deep_view() == s.deep_view(),
{
    match s {
        Some(x) => Some(x.as_str()),
        None => None,
    }
}

/// Answers a question.
fn answer(store: &Store, request: &Request, blame: Option<String>) -> (r: Result<Response, Failure>)
    requires
        store.wf(),
        is_question(request.deep_view()),
    ensures
        match answer_of(*store, request.deep_view(), blame.deep_view()) {
            Ok(a) => is_answer(r, a),
            Err(f) => crate::failure::failed(r, f),
        },
{
    match request {
        Request::Status => {
            let events: i64 = store.event_count();
            match store.marker() {
                Marker::Unreadable => Err(
                    Failure::Marker { path: active_session_path(store.paths()) },
                ),
                Marker::Active(a) => Ok(
                    Response::Status { events, active_session: Some(a.clone()) },
                ),
                Marker::Absent => Ok(Response::Status { events, active_session: None }),
            }
        },
        Request::Sessions { limit } => Ok(
            Response::Sessions { sessions: store.list_sessions(*limit) },
        ),
        Request::FilteredEvents { agent, path_substring, since_ns, limit } => Ok(
            Response::Events {
                events: store.filtered_events(
                    slice_of(agent),
                    slice_of(path_substring),
                    *since_ns,
                    *limit,
                ),
            },
        ),
        Request::SessionEvents { session_id } => Ok(
            Response::Events { events: store.events_for_session(session_id.as_str()) },
        ),
        Request::DiffEvent { event_id } => match diff_event_text(store, *event_id) {
            Ok(content) => Ok(Response::Text { content }),
            Err(f) => Err(f),
        },
        Request::ShowEvent { event_id, before, after } => match show_event_bytes(
            store,
            *event_id,
            *before,
            *after,
        ) {
            Ok(bytes) => Ok(Response::Bytes { bytes }),
            Err(f) => Err(f),
        },
        Request::BlameFile { path } => match blame {
            Some(content) => Ok(Response::Text { content }),
            None => Err(Failure::NoBlame { path: path.clone() }),
        },
        Request::OopsPlan { window_ns } => Ok(
            Response::Plan { items: oops_plan(store, *window_ns) },
        ),
        _ => Ok(Response::ShutdownAccepted),
    }
}

/// Carries out a request and answers it. A request to stop raises `stop`. `blame` is what a report
/// on the lines of a file says, where the request asks for one.
pub fn handle_request(
    store: &mut Store,
    stop: &mut bool,
    request: Request,
    blame: Option<String>,
) -> (r: Result<Response, Failure>)
    requires
        old(store).wf(),
    ensures
        answers(*old(store), *final(store), request.deep_view(), blame.deep_view(), r),
        *final(stop) == (*old(stop) || request is Shutdown),
{
    proof {
        Store::lemma_did_nothing(*store);
    }
    match request {
        Request::Shutdown => {
            *stop = true;
            Ok(Response::ShutdownAccepted)
        },
        Request::SessionStart { agent, metadata } => match parse_metadata(slice_of(&metadata)) {
            Ok(parsed) => {
                let session_id = start(store, session_from(agent, parsed));
                Ok(Response::SessionStarted { session_id })
            },
            Err(f) => Err(f),
        },
        Request::SessionEnd { session_id, metadata } => match parse_metadata(
            slice_of(&metadata),
        ) {
            Ok(parsed) => match end(store, session_id.as_str(), Some(&parsed), true) {
                Ok(()) => Ok(Response::SessionEnded),
                Err(f) => Err(f),
            },
            Err(f) => Err(f),
        },
        Request::RestoreEvent { event_id } => match store.get_event(event_id) {
            Some(event) => match restore_to_event(store, &event) {
                Ok(()) => Ok(Response::Event { event }),
                Err(f) => Err(f),
            },
            None => Err(Failure::NoEvent { id: event_id }),
        },
        Request::RestoreFile { path } => match restore_latest_change_to_file(
            store,
            path.as_str(),
        ) {
            Ok(event) => Ok(Response::Event { event }),
            Err(f) => Err(f),
        },
        Request::RestoreSession { session_id } => match restore_session(
            store,
            session_id.as_str(),
        ) {
            Ok(paths) => Ok(Response::Paths { paths }),
            Err(f) => Err(f),
        },
        Request::RestorePin { label } => match restore_pin(store, label.as_str()) {
            Ok(paths) => Ok(Response::Paths { paths }),
            Err(f) => Err(f),
        },
        Request::OopsApply { window_ns } => match oops(store, window_ns) {
            Ok(items) => Ok(Response::Plan { items }),
            Err(f) => Err(f),
        },
        _ => answer(store, &request, blame),
    }
}

/// A question changes nothing that the project holds.
pub proof fn law_questions_change_nothing(
    before: Store,
    after: Store,
    q: RequestView,
    blame: Option<Seq<char>>,
    r: Result<Response, Failure>,
)
    requires
        is_question(q),
        answers(before, after, q, blame, r),
    ensures
        after.image() == before.image(),
        after.pending() == before.pending(),
{
    assert(before.pending() + Seq::<crate::image::EffectView>::empty() =~= before.pending());
}

/// A question is answered from what the project holds: the count of its events and its active
/// session, its sessions, its events, a content, or what an `oops` would undo.
pub proof fn law_questions_are_answered_from_the_project(
    before: Store,
    blame: Option<Seq<char>>,
    limit: usize,
    session_id: Seq<char>,
    window_ns: i64,
)
    ensures
        ({
            let i = before.image();
            &&& before.image().marker matches MarkerView::Active(a) ==> answer_of(
                before,
                RequestView::Status,
                blame,
            ) == Ok::<ResponseView, FailureView>(
                ResponseView::Status { events: i.events.len() as i64, active_session: Some(a) },
            )
            &&& before.image().marker is Absent ==> answer_of(before, RequestView::Status, blame)
                == Ok::<ResponseView, FailureView>(
                ResponseView::Status { events: i.events.len() as i64, active_session: None },
            )
            &&& before.image().marker is Unreadable ==> answer_of(
                before,
                RequestView::Status,
                blame,
            ) is Err
            &&& answer_of(before, RequestView::SessionEvents { session_id }, blame) == Ok::<
                ResponseView,
                FailureView,
            >(ResponseView::Events { events: crate::timeline::session_events(i, session_id) })
            &&& answer_of(before, RequestView::OopsPlan { window_ns }, blame) == Ok::<
                ResponseView,
                FailureView,
            >(ResponseView::Plan { items: crate::restore::bulk::oops_of(i, window_ns) })
        }),
{
}

/// What a request carries is what it changes: every request that is no question is one that starts
/// or ends a session or restores something.
pub proof fn law_other_requests_are_carried_out(q: RequestView)
    ensures
        !is_question(q) <==> {
            ||| q is SessionStart
            ||| q is SessionEnd
            ||| q is RestoreEvent
            ||| q is RestoreFile
            ||| q is RestoreSession
            ||| q is RestorePin
            ||| q is OopsApply
        },
{
}

} // verus!
