//! The rows of the timeline, and what they hold as mathematical values.
use vstd::prelude::*;

verus! {

/// A change to a file, before the timeline has given it a number.
#[derive(Debug)]
pub struct NewEvent {
    pub ts_ns: i64,
    pub path: String,
    pub before_hash: Option<String>,
    pub after_hash: Option<String>,
    pub size_before: Option<i64>,
    pub size_after: Option<i64>,
    pub attribution: String,
    pub confidence: String,
    pub session_id: Option<String>,
    pub pid: Option<i64>,
    pub process_name: Option<String>,
    pub tool_name: Option<String>,
}

/// What `NewEvent` holds.
#[verifier::ext_equal]
pub struct NewEventView {
    pub ts_ns: i64,
    pub path: Seq<char>,
    pub before_hash: Option<Seq<char>>,
    pub after_hash: Option<Seq<char>>,
    pub size_before: Option<i64>,
    pub size_after: Option<i64>,
    pub attribution: Seq<char>,
    pub confidence: Seq<char>,
    pub session_id: Option<Seq<char>>,
    pub pid: Option<i64>,
    pub process_name: Option<Seq<char>>,
    pub tool_name: Option<Seq<char>>,
}

impl DeepView for NewEvent {
    type V = NewEventView;

    open spec fn deep_view(&self) -> NewEventView {
        NewEventView {
            ts_ns: self.ts_ns,
            path: self.path@,
            before_hash: self.before_hash.deep_view(),
            after_hash: self.after_hash.deep_view(),
            size_before: self.size_before,
            size_after: self.size_after,
            attribution: self.attribution@,
            confidence: self.confidence@,
            session_id: self.session_id.deep_view(),
            pid: self.pid,
            process_name: self.process_name.deep_view(),
            tool_name: self.tool_name.deep_view(),
        }
    }
}

impl Clone for NewEvent {
    fn clone(&self) -> (r: Self)
        ensures
            r.deep_view() == self.deep_view(),
    {
        NewEvent {
            ts_ns: self.ts_ns,
            path: self.path.clone(),
            before_hash: self.before_hash.clone(),
            after_hash: self.after_hash.clone(),
            size_before: self.size_before,
            size_after: self.size_after,
            attribution: self.attribution.clone(),
            confidence: self.confidence.clone(),
            session_id: self.session_id.clone(),
            pid: self.pid,
            process_name: self.process_name.clone(),
            tool_name: self.tool_name.clone(),
        }
    }
}

/// A change to a file, as the timeline lists it.
#[derive(Debug)]
pub struct EventRow {
    pub id: i64,
    pub ts_ns: i64,
    pub path: String,
    pub before_hash: Option<String>,
    pub after_hash: Option<String>,
    pub size_before: Option<i64>,
    pub size_after: Option<i64>,
    pub attribution: String,
    pub session_id: Option<String>,
}

/// What `EventRow` holds.
#[verifier::ext_equal]
pub struct EventRowView {
    pub id: i64,
    pub ts_ns: i64,
    pub path: Seq<char>,
    pub before_hash: Option<Seq<char>>,
    pub after_hash: Option<Seq<char>>,
    pub size_before: Option<i64>,
    pub size_after: Option<i64>,
    pub attribution: Seq<char>,
    pub session_id: Option<Seq<char>>,
}

impl DeepView for EventRow {
    type V = EventRowView;

    open spec fn deep_view(&self) -> EventRowView {
        EventRowView {
            id: self.id,
            ts_ns: self.ts_ns,
            path: self.path@,
            before_hash: self.before_hash.deep_view(),
            after_hash: self.after_hash.deep_view(),
            size_before: self.size_before,
            size_after: self.size_after,
            attribution: self.attribution@,
            session_id: self.session_id.deep_view(),
        }
    }
}

impl Clone for EventRow {
    fn clone(&self) -> (r: Self)
        ensures
            r.deep_view() == self.deep_view(),
    {
        EventRow {
            id: self.id,
            ts_ns: self.ts_ns,
            path: self.path.clone(),
            before_hash: self.before_hash.clone(),
            after_hash: self.after_hash.clone(),
            size_before: self.size_before,
            size_after: self.size_after,
            attribution: self.attribution.clone(),
            session_id: self.session_id.clone(),
        }
    }
}

/// A change to a file, with everything that the timeline keeps of it.
#[derive(Debug)]
pub struct EventRecord {
    pub row: EventRow,
    pub confidence: String,
    pub pid: Option<i64>,
    pub process_name: Option<String>,
    pub tool_name: Option<String>,
}

/// What `EventRecord` holds.
#[verifier::ext_equal]
pub struct EventRecordView {
    pub row: EventRowView,
    pub confidence: Seq<char>,
    pub pid: Option<i64>,
    pub process_name: Option<Seq<char>>,
    pub tool_name: Option<Seq<char>>,
}

impl DeepView for EventRecord {
    type V = EventRecordView;

    open spec fn deep_view(&self) -> EventRecordView {
        EventRecordView {
            row: self.row.deep_view(),
            confidence: self.confidence@,
            pid: self.pid,
            process_name: self.process_name.deep_view(),
            tool_name: self.tool_name.deep_view(),
        }
    }
}

impl Clone for EventRecord {
    fn clone(&self) -> (r: Self)
        ensures
            r.deep_view() == self.deep_view(),
    {
        EventRecord {
            row: self.row.clone(),
            confidence: self.confidence.clone(),
            pid: self.pid,
            process_name: self.process_name.clone(),
            tool_name: self.tool_name.clone(),
        }
    }
}

/// A label for the state that the project was in after an event.
#[derive(Debug)]
pub struct PinRow {
    pub id: i64,
    pub event_id: i64,
    pub label: String,
    pub created_at_ns: i64,
}

/// What `PinRow` holds.
#[verifier::ext_equal]
pub struct PinRowView {
    pub id: i64,
    pub event_id: i64,
    pub label: Seq<char>,
    pub created_at_ns: i64,
}

impl DeepView for PinRow {
    type V = PinRowView;

    open spec fn deep_view(&self) -> PinRowView {
        PinRowView {
            id: self.id,
            event_id: self.event_id,
            label: self.label@,
            created_at_ns: self.created_at_ns,
        }
    }
}

impl Clone for PinRow {
    fn clone(&self) -> (r: Self)
        ensures
            r.deep_view() == self.deep_view(),
    {
        PinRow {
            id: self.id,
            event_id: self.event_id,
            label: self.label.clone(),
            created_at_ns: self.created_at_ns,
        }
    }
}

/// A stretch of work of one agent.
#[derive(Debug)]
pub struct SessionRow {
    pub id: String,
    pub agent: String,
    pub started_at_ns: i64,
    pub ended_at_ns: Option<i64>,
    pub prompt: Option<String>,
    pub model: Option<String>,
    pub metadata: Option<String>,
    pub prompt_output: Option<String>,
}

/// What `SessionRow` holds.
#[verifier::ext_equal]
pub struct SessionRowView {
    pub id: Seq<char>,
    pub agent: Seq<char>,
    pub started_at_ns: i64,
    pub ended_at_ns: Option<i64>,
    pub prompt: Option<Seq<char>>,
    pub model: Option<Seq<char>>,
    pub metadata: Option<Seq<char>>,
    pub prompt_output: Option<Seq<char>>,
}

impl DeepView for SessionRow {
    type V = SessionRowView;

    open spec fn deep_view(&self) -> SessionRowView {
        SessionRowView {
            id: self.id@,
            agent: self.agent@,
            started_at_ns: self.started_at_ns,
            ended_at_ns: self.ended_at_ns,
            prompt: self.prompt.deep_view(),
            model: self.model.deep_view(),
            metadata: self.metadata.deep_view(),
            prompt_output: self.prompt_output.deep_view(),
        }
    }
}

impl Clone for SessionRow {
    fn clone(&self) -> (r: Self)
        ensures
            r.deep_view() == self.deep_view(),
    {
        SessionRow {
            id: self.id.clone(),
            agent: self.agent.clone(),
            started_at_ns: self.started_at_ns,
            ended_at_ns: self.ended_at_ns,
            prompt: self.prompt.clone(),
            model: self.model.clone(),
            metadata: self.metadata.clone(),
            prompt_output: self.prompt_output.clone(),
        }
    }
}

/// The latest known content of a file, so that an unchanged file is told from a changed one.
#[derive(Debug)]
pub struct FileState {
    pub latest_hash: String,
    pub latest_size: i64,
    pub latest_ts_ns: i64,
}

/// What `FileState` holds.
#[verifier::ext_equal]
pub struct FileStateView {
    pub latest_hash: Seq<char>,
    pub latest_size: i64,
    pub latest_ts_ns: i64,
}

impl DeepView for FileState {
    type V = FileStateView;

    open spec fn deep_view(&self) -> FileStateView {
        FileStateView {
            latest_hash: self.latest_hash@,
            latest_size: self.latest_size,
            latest_ts_ns: self.latest_ts_ns,
        }
    }
}

impl Clone for FileState {
    fn clone(&self) -> (r: Self)
        ensures
            r.deep_view() == self.deep_view(),
    {
        FileState {
            latest_hash: self.latest_hash.clone(),
            latest_size: self.latest_size,
            latest_ts_ns: self.latest_ts_ns,
        }
    }
}

/// The session that writes are attributed to while its marker stands.
#[derive(Debug)]
pub struct ActiveSession {
    pub session_id: String,
    pub agent: String,
    pub started_at_ns: i64,
    pub tool_name: Option<String>,
    pub intended_file: Option<String>,
}

/// What `ActiveSession` holds.
#[verifier::ext_equal]
pub struct ActiveSessionView {
    pub session_id: Seq<char>,
    pub agent: Seq<char>,
    pub started_at_ns: i64,
    pub tool_name: Option<Seq<char>>,
    pub intended_file: Option<Seq<char>>,
}

impl DeepView for ActiveSession {
    type V = ActiveSessionView;

    open spec fn deep_view(&self) -> ActiveSessionView {
        ActiveSessionView {
            session_id: self.session_id@,
            agent: self.agent@,
            started_at_ns: self.started_at_ns,
            tool_name: self.tool_name.deep_view(),
            intended_file: self.intended_file.deep_view(),
        }
    }
}

impl Clone for ActiveSession {
    fn clone(&self) -> (r: Self)
        ensures
            r.deep_view() == self.deep_view(),
    {
        ActiveSession {
            session_id: self.session_id.clone(),
            agent: self.agent.clone(),
            started_at_ns: self.started_at_ns,
            tool_name: self.tool_name.clone(),
            intended_file: self.intended_file.clone(),
        }
    }
}

} // verus!
