//! What a command makes of the answer of the daemon.
//!
//! A command asks a running daemon first. Where none answers it does the work itself; where the
//! daemon refuses, the command fails with what the daemon says.
use vstd::prelude::*;

use crate::ipc::{Response, ResponseView};
use crate::rows::{ActiveSession, ActiveSessionView, EventRow, EventRowView, SessionRow, SessionRowView};

verus! {

broadcast use vstd::string::group_string_axioms;

/// What a command has of the daemon.
#[derive(Debug)]
pub enum Asked<T> {
    /// What it asked for.
    Got(T),
    /// A refusal.
    Refused(String),
    /// Nothing: the command does the work itself.
    Alone,
}

/// What a command has of the daemon.
pub enum AskedView<T> {
    Got(T),
    Refused(Seq<char>),
    Alone,
}

/// What a command fails with that gets an answer to another question.
pub open spec fn unexpected() -> Seq<char> {
    "unexpected daemon response"@
}

/// What a command that asks for a text has of the daemon.
pub open spec fn having_text(reply: Option<ResponseView>) -> AskedView<Seq<char>> {
    match reply {
        None => AskedView::Alone,
        Some(ResponseView::Text { content }) => AskedView::Got(content),
        Some(ResponseView::Error { message }) => AskedView::Refused(message),
        Some(_) => AskedView::Refused(unexpected()),
    }
}

/// What a command that asks for a text has of the daemon.
pub fn asked_text(reply: Option<Response>) -> (r: Asked<String>)
    ensures
        match having_text(reply.deep_view()) {
            AskedView::Got(x) => r matches Asked::Got(content) && content@ == x,
            AskedView::Refused(m) => r matches Asked::Refused(message) && message@ == m,
            AskedView::Alone => r is Alone,
        },
{
    match reply {
        None => Asked::Alone,
        Some(Response::Text { content }) => Asked::Got(content),
        Some(Response::Error { message }) => Asked::Refused(message),
        Some(_) => Asked::Refused("unexpected daemon response".to_owned()),
    }
}

/// What a command that asks for some content has of the daemon.
pub open spec fn having_bytes(reply: Option<ResponseView>) -> AskedView<Seq<u8>> {
    match reply {
        None => AskedView::Alone,
        Some(ResponseView::Bytes { bytes }) => AskedView::Got(bytes),
        Some(ResponseView::Error { message }) => AskedView::Refused(message),
        Some(_) => AskedView::Refused(unexpected()),
    }
}

/// What a command that asks for some content has of the daemon.
pub fn asked_bytes(reply: Option<Response>) -> (r: Asked<Vec<u8>>)
    ensures
        match having_bytes(reply.deep_view()) {
            AskedView::Got(x) => r matches Asked::Got(bytes) && bytes@ == x,
            AskedView::Refused(m) => r matches Asked::Refused(message) && message@ == m,
            AskedView::Alone => r is Alone,
        },
{
    match reply {
        None => Asked::Alone,
        Some(Response::Bytes { bytes }) => Asked::Got(bytes),
        Some(Response::Error { message }) => Asked::Refused(message),
        Some(_) => Asked::Refused("unexpected daemon response".to_owned()),
    }
}

/// What a command that asks for an event has of the daemon.
pub open spec fn having_event(reply: Option<ResponseView>) -> AskedView<EventRowView> {
    match reply {
        None => AskedView::Alone,
        Some(ResponseView::Event { event }) => AskedView::Got(event),
        Some(ResponseView::Error { message }) => AskedView::Refused(message),
        Some(_) => AskedView::Refused(unexpected()),
    }
}

/// What a command that asks for an event has of the daemon.
pub fn asked_event(reply: Option<Response>) -> (r: Asked<EventRow>)
    ensures
        match having_event(reply.deep_view()) {
            AskedView::Got(x) => r matches Asked::Got(event) && event.deep_view() == x,
            AskedView::Refused(m) => r matches Asked::Refused(message) && message@ == m,
            AskedView::Alone => r is Alone,
        },
{
    match reply {
        None => Asked::Alone,
        Some(Response::Event { event }) => Asked::Got(event),
        Some(Response::Error { message }) => Asked::Refused(message),
        Some(_) => Asked::Refused("unexpected daemon response".to_owned()),
    }
}

/// What a command that asks for some paths has of the daemon.
pub open spec fn having_paths(reply: Option<ResponseView>) -> AskedView<Seq<Seq<char>>> {
    match reply {
        None => AskedView::Alone,
        Some(ResponseView::Paths { paths }) => AskedView::Got(paths),
        Some(ResponseView::Error { message }) => AskedView::Refused(message),
        Some(_) => AskedView::Refused(unexpected()),
    }
}

/// What a command that asks for some paths has of the daemon.
pub fn asked_paths(reply: Option<Response>) -> (r: Asked<Vec<String>>)
    ensures
        match having_paths(reply.deep_view()) {
            AskedView::Got(x) => r matches Asked::Got(paths) && paths.deep_view() == x,
            AskedView::Refused(m) => r matches Asked::Refused(message) && message@ == m,
            AskedView::Alone => r is Alone,
        },
{
    match reply {
        None => Asked::Alone,
        Some(Response::Paths { paths }) => Asked::Got(paths),
        Some(Response::Error { message }) => Asked::Refused(message),
        Some(_) => Asked::Refused("unexpected daemon response".to_owned()),
    }
}

/// What a command that asks for some sessions has of the daemon.
pub open spec fn having_sessions(reply: Option<ResponseView>) -> AskedView<Seq<SessionRowView>> {
    match reply {
        None => AskedView::Alone,
        Some(ResponseView::Sessions { sessions }) => AskedView::Got(sessions),
        Some(ResponseView::Error { message }) => AskedView::Refused(message),
        Some(_) => AskedView::Refused(unexpected()),
    }
}

/// What a command that asks for some sessions has of the daemon.
pub fn asked_sessions(reply: Option<Response>) -> (r: Asked<Vec<SessionRow>>)
    ensures
        match having_sessions(reply.deep_view()) {
            AskedView::Got(x) => r matches Asked::Got(sessions) && sessions.deep_view() == x,
            AskedView::Refused(m) => r matches Asked::Refused(message) && message@ == m,
            AskedView::Alone => r is Alone,
        },
{
    match reply {
        None => Asked::Alone,
        Some(Response::Sessions { sessions }) => Asked::Got(sessions),
        Some(Response::Error { message }) => Asked::Refused(message),
        Some(_) => Asked::Refused("unexpected daemon response".to_owned()),
    }
}

/// What a command that asks for some events has of the daemon.
pub open spec fn having_events(reply: Option<ResponseView>) -> AskedView<Seq<EventRowView>> {
    match reply {
        None => AskedView::Alone,
        Some(ResponseView::Events { events }) => AskedView::Got(events),
        Some(ResponseView::Error { message }) => AskedView::Refused(message),
        Some(_) => AskedView::Refused(unexpected()),
    }
}

/// What a command that asks for some events has of the daemon.
pub fn asked_events(reply: Option<Response>) -> (r: Asked<Vec<EventRow>>)
    ensures
        match having_events(reply.deep_view()) {
            AskedView::Got(x) => r matches Asked::Got(events) && events.deep_view() == x,
            AskedView::Refused(m) => r matches Asked::Refused(message) && message@ == m,
            AskedView::Alone => r is Alone,
        },
{
    match reply {
        None => Asked::Alone,
        Some(Response::Events { events }) => Asked::Got(events),
        Some(Response::Error { message }) => Asked::Refused(message),
        Some(_) => Asked::Refused("unexpected daemon response".to_owned()),
    }
}

/// What a command that asks for the id of a session has of the daemon.
pub open spec fn having_started(reply: Option<ResponseView>) -> AskedView<Seq<char>> {
    match reply {
        None => AskedView::Alone,
        Some(ResponseView::SessionStarted { session_id }) => AskedView::Got(session_id),
        Some(ResponseView::Error { message }) => AskedView::Refused(message),
        Some(_) => AskedView::Refused(unexpected()),
    }
}

/// What a command that asks for the id of a session has of the daemon.
pub fn asked_started(reply: Option<Response>) -> (r: Asked<String>)
    ensures
        match having_started(reply.deep_view()) {
            AskedView::Got(x) => r matches Asked::Got(session_id) && session_id@ == x,
            AskedView::Refused(m) => r matches Asked::Refused(message) && message@ == m,
            AskedView::Alone => r is Alone,
        },
{
    match reply {
        None => Asked::Alone,
        Some(Response::SessionStarted { session_id }) => Asked::Got(session_id),
        Some(Response::Error { message }) => Asked::Refused(message),
        Some(_) => Asked::Refused("unexpected daemon response".to_owned()),
    }
}

/// What a command that ends a session has of the daemon.
pub open spec fn having_ended(reply: Option<ResponseView>) -> AskedView<()> {
    match reply {
        None => AskedView::Alone,
        Some(ResponseView::SessionEnded) => AskedView::Got(()),
        Some(ResponseView::Error { message }) => AskedView::Refused(message),
        Some(_) => AskedView::Refused(unexpected()),
    }
}

/// What a command that ends a session has of the daemon.
pub fn asked_ended(reply: Option<Response>) -> (r: Asked<()>)
    ensures
        match having_ended(reply.deep_view()) {
            AskedView::Got(_) => r is Got,
            AskedView::Refused(m) => r matches Asked::Refused(message) && message@ == m,
            AskedView::Alone => r is Alone,
        },
{
    match reply {
        None => Asked::Alone,
        Some(Response::SessionEnded) => Asked::Got(()),
        Some(Response::Error { message }) => Asked::Refused(message),
        Some(_) => Asked::Refused("unexpected daemon response".to_owned()),
    }
}

/// What an `oops` has of the daemon: it does not take a refusal for an answer, and does the work
/// itself.
pub open spec fn having_oops(reply: Option<ResponseView>) -> AskedView<
    Seq<(Seq<char>, EventRowView)>,
> {
    match reply {
        None => AskedView::Alone,
        Some(ResponseView::Plan { items }) => AskedView::Got(items),
        Some(ResponseView::Error { message }) => AskedView::Alone,
        Some(_) => AskedView::Refused(unexpected()),
    }
}

/// What an `oops` has of the daemon (see `having_oops`).
pub fn asked_oops(reply: Option<Response>) -> (r: Asked<Vec<(String, EventRow)>>)
    ensures
        match having_oops(reply.deep_view()) {
            AskedView::Got(x) => r matches Asked::Got(items) && items.deep_view() == x,
            AskedView::Refused(m) => r matches Asked::Refused(message) && message@ == m,
            AskedView::Alone => r is Alone,
        },
{
    match reply {
        None => Asked::Alone,
        Some(Response::Plan { items }) => Asked::Got(items),
        Some(Response::Error { message: _ }) => Asked::Alone,
        Some(_) => Asked::Refused("unexpected daemon response".to_owned()),
    }
}

/// The number of events and the active session that a daemon reports.
pub open spec fn status_in(reply: Option<ResponseView>) -> Option<
    (i64, Option<ActiveSessionView>),
> {
    match reply {
        Some(ResponseView::Status { events, active_session }) => Some((events, active_session)),
        _ => None,
    }
}

/// The number of events and the active session that a daemon reports.
pub fn reported_status(reply: Option<Response>) -> (r: Option<(i64, Option<ActiveSession>)>)
    ensures
        r.deep_view() == status_in(reply.deep_view()),
{
    match reply {
        Some(Response::Status { events, active_session }) => Some((events, active_session)),
        _ => None,
    }
}

} // verus!
