//! Hooks that an agent runs before and after each of its tools.
//!
//! Before a tool runs, its session is started, so that the files that the tool writes are
//! attributed to it; after the tool the session is ended. A running daemon is asked to do that;
//! where none answers, it is done here.
use vstd::prelude::*;

pub use crate::paths::active_session_path;
pub use crate::rows::ActiveSession;

use crate::attribution::{HookedAgent, HookedAgentView};
use crate::failure::{Failure, FailureView};
use crate::image::{EffectView, Image, Marker, MarkerView};
use crate::ipc::{Request, RequestView, Response, ResponseView};
use crate::json::{empty_object, get_text, opt_text_value, put, shown, text_value};
use crate::rows::SessionRowView;
use crate::session::{ParsedSessionMetadataView, SessionStart, SessionStartView};
use crate::store::Store;

verus! {

broadcast use vstd::string::group_string_axioms;

/// What an agent tells a hook.
#[derive(Debug)]
pub struct ClaudeHookInput {
    pub session_id: String,
    pub tool_name: String,
    pub agent: Option<String>,
    pub tool_input: serde_json::Value,
    pub tool_response: Option<serde_json::Value>,
}

/// What `ClaudeHookInput` holds.
pub struct ClaudeHookInputView {
    pub session_id: Seq<char>,
    pub tool_name: Seq<char>,
    pub agent: Option<Seq<char>>,
    pub tool_input: crate::json::JsonTree,
}

impl DeepView for ClaudeHookInput {
    type V = ClaudeHookInputView;

    open spec fn deep_view(&self) -> ClaudeHookInputView {
        ClaudeHookInputView {
            session_id: self.session_id@,
            tool_name: self.tool_name@,
            agent: self.agent.deep_view(),
            tool_input: crate::json::tree(self.tool_input),
        }
    }
}

/// The file that a tool works on.
pub open spec fn file_in(h: ClaudeHookInputView) -> Option<Seq<char>> {
    crate::json::text_member(h.tool_input, "file_path"@)
}

/// The agent of a hook: the one that is named, or the one whose tools call the hooks.
pub open spec fn agent_in(h: ClaudeHookInputView, hooked: HookedAgentView) -> Seq<char> {
    match h.agent {
        Some(agent) => agent,
        None => hooked.id,
    }
}

impl ClaudeHookInput {
    /// The file that the tool works on, where it names one.
    pub fn file_path(&self) -> (r: Option<String>)
        ensures
            r.deep_view() == file_in(self.deep_view()),
    {
        get_text(&self.tool_input, "file_path")
    }

    fn agent_name(&self, hooked: &HookedAgent) -> (r: String)
        ensures
            r@ == agent_in(self.deep_view(), hooked.deep_view()),
    {
        match &self.agent {
            Some(agent) => agent.clone(),
            None => hooked.id.clone(),
        }
    }
}

/// What the daemon is told of a tool.
pub open spec fn told_of_tool(h: ClaudeHookInputView, hooked: HookedAgentView) -> crate::json::JsonTree {
    crate::json::JsonTree::Object(
        Map::empty().insert("session_id"@, crate::json::JsonTree::Text(h.session_id)).insert(
            "tool_name"@,
            crate::json::JsonTree::Text(h.tool_name),
        ).insert("file_path"@, crate::json::text_or_null(file_in(h))).insert(
            "tool"@,
            crate::json::JsonTree::Text(agent_in(h, hooked)),
        ),
    )
}

/// What the daemon is asked before a tool runs.
pub open spec fn asked_before(h: ClaudeHookInputView, hooked: HookedAgentView) -> RequestView {
    RequestView::SessionStart {
        agent: agent_in(h, hooked),
        metadata: Some(crate::json::json_shown(told_of_tool(h, hooked))),
    }
}

/// The document that the daemon is told of a tool.
pub fn tool_document(input: &ClaudeHookInput, hooked: &HookedAgent) -> (r: serde_json::Value)
    ensures
        crate::json::tree(r) == told_of_tool(input.deep_view(), hooked.deep_view()),
{
    let mut doc = empty_object();
    put(&mut doc, "session_id".to_owned(), text_value(input.session_id.clone()));
    put(&mut doc, "tool_name".to_owned(), text_value(input.tool_name.clone()));
    put(&mut doc, "file_path".to_owned(), opt_text_value(&input.file_path()));
    put(&mut doc, "tool".to_owned(), text_value(input.agent_name(hooked)));
    doc
}

/// What to ask the daemon before a tool runs; nothing outside of a project.
pub fn handle_pre(input: &ClaudeHookInput, in_project: bool, hooked: &HookedAgent) -> (r: Option<
    Request,
>)
    ensures
        r.deep_view() == (if in_project {
            Some(asked_before(input.deep_view(), hooked.deep_view()))
        } else {
            None
        }),
        r.deep_view() matches Some(RequestView::SessionStart { metadata, .. })
            ==> crate::session::metadata_read(metadata) == Some(
            crate::session::metadata_in(told_of_tool(input.deep_view(), hooked.deep_view())),
        ),
{
    if !in_project {
        return None;
    }
    let doc = tool_document(input, hooked);
    Some(Request::SessionStart { agent: input.agent_name(hooked), metadata: Some(shown(&doc)) })
}

/// What to ask the daemon after a tool ran; nothing outside of a project.
pub fn handle_post(input: &ClaudeHookInput, in_project: bool) -> (r: Option<Request>)
    ensures
        r.deep_view() == (if in_project {
            Some(RequestView::SessionEnd { session_id: input.session_id@, metadata: None })
        } else {
            None
        }),
{
    if !in_project {
        return None;
    }
    Some(Request::SessionEnd { session_id: input.session_id.clone(), metadata: None })
}

/// What a hook does next.
#[derive(Debug)]
pub enum HookStep {
    /// The daemon has done it.
    Done,
    /// The daemon has refused.
    Fail { message: String },
    /// No daemon has answered: start the session here.
    Start(SessionStart),
    /// No daemon has answered: end the session here.
    End { session_id: String },
}

/// What a hook does next.
pub enum HookStepView {
    Done,
    Fail { message: Seq<char> },
    Start(SessionStartView),
    End { session_id: Seq<char> },
}

impl DeepView for HookStep {
    type V = HookStepView;

    open spec fn deep_view(&self) -> HookStepView {
        match self {
            HookStep::Done => HookStepView::Done,
            HookStep::Fail { message } => HookStepView::Fail { message: message@ },
            HookStep::Start(s) => HookStepView::Start(s.deep_view()),
            HookStep::End { session_id } => HookStepView::End { session_id: session_id@ },
        }
    }
}

/// The note that a session which is started here carries: the tool.
pub open spec fn tool_note(h: ClaudeHookInputView) -> crate::json::JsonTree {
    crate::json::JsonTree::Object(
        Map::empty().insert("tool"@, crate::json::JsonTree::Text(h.tool_name)),
    )
}

/// The session that is started here before a tool runs.
pub open spec fn own_start(h: ClaudeHookInputView, hooked: HookedAgentView) -> SessionStartView {
    SessionStartView {
        session_id: Some(h.session_id),
        agent: agent_in(h, hooked),
        prompt: None,
        model: None,
        metadata: Some(crate::json::json_shown(tool_note(h))),
        prompt_output: None,
        tool_name: Some(h.tool_name),
        intended_file: file_in(h),
        activate: true,
    }
}

/// What a hook does next before a tool runs, given the answer of the daemon.
pub open spec fn next_before(
    h: ClaudeHookInputView,
    reply: Option<ResponseView>,
    hooked: HookedAgentView,
) -> HookStepView {
    match reply {
        None => HookStepView::Start(own_start(h, hooked)),
        Some(ResponseView::SessionStarted { session_id }) => HookStepView::Done,
        Some(ResponseView::Error { message }) => HookStepView::Fail { message },
        Some(_) => HookStepView::Fail { message: "unexpected daemon response"@ },
    }
}

/// What a hook does next after a tool ran, given the answer of the daemon.
pub open spec fn next_after(h: ClaudeHookInputView, reply: Option<ResponseView>) -> HookStepView {
    match reply {
        None => HookStepView::End { session_id: h.session_id },
        Some(ResponseView::SessionEnded) => HookStepView::Done,
        Some(ResponseView::Error { message }) => HookStepView::Fail { message },
        Some(_) => HookStepView::Fail { message: "unexpected daemon response"@ },
    }
}

/// What a hook does next before a tool runs, given the answer of the daemon, if there was one.
pub fn run_pre(input: &ClaudeHookInput, reply: Option<Response>, hooked: &HookedAgent) -> (r:
    HookStep)
    ensures
        r.deep_view() == next_before(input.deep_view(), reply.deep_view(), hooked.deep_view()),
{
    match reply {
        Some(Response::SessionStarted { session_id: _ }) => HookStep::Done,
        Some(Response::Error { message }) => HookStep::Fail { message },
        Some(_) => HookStep::Fail { message: "unexpected daemon response".to_owned() },
        None => {
            let mut note = empty_object();
            put(&mut note, "tool".to_owned(), text_value(input.tool_name.clone()));
            let s = SessionStart {
                session_id: Some(input.session_id.clone()),
                agent: input.agent_name(hooked),
                prompt: None,
                model: None,
                metadata: Some(shown(&note)),
                prompt_output: None,
                tool_name: Some(input.tool_name.clone()),
                intended_file: input.file_path(),
                activate: true,
            };
            assert(s.deep_view() == own_start(input.deep_view(), hooked.deep_view()));
            HookStep::Start(s)
        },
    }
}

/// What a hook does next after a tool ran, given the answer of the daemon, if there was one.
pub fn run_post(input: &ClaudeHookInput, reply: Option<Response>) -> (r: HookStep)
    ensures
        r.deep_view() == next_after(input.deep_view(), reply.deep_view()),
{
    match reply {
        Some(Response::SessionEnded) => HookStep::Done,
        Some(Response::Error { message }) => HookStep::Fail { message },
        Some(_) => HookStep::Fail { message: "unexpected daemon response".to_owned() },
        None => HookStep::End { session_id: input.session_id.clone() },
    }
}

/// The session that the marker names.
pub fn read_active_session(store: &Store) -> (r: Result<Option<ActiveSession>, Failure>)
    ensures
        match store.image().marker {
            MarkerView::Absent => r matches Ok(x) && x is None,
            MarkerView::Active(a) => r matches Ok(x) && x.deep_view() == Some(a),
            MarkerView::Unreadable => crate::failure::failed(
                r,
                FailureView::Marker { path: crate::session::marker_place(*store) },
            ),
        },
{
    match store.marker() {
        Marker::Absent => Ok(None),
        Marker::Active(a) => Ok(Some(a.clone())),
        Marker::Unreadable => Err(Failure::Marker { path: active_session_path(store.paths()) }),
    }
}

/// Writes the marker, or removes it.
pub fn write_active_session(store: &mut Store, session: Option<&ActiveSession>)
    requires
        old(store).wf(),
    ensures
        Store::did(
            *old(store),
            *final(store),
            seq![
                match session.deep_view() {
                    Some(a) => EffectView::WriteMarker(a),
                    None => EffectView::ClearMarker,
                },
            ],
        ),
{
    match session {
        Some(s) => store.write_marker(s.clone()),
        None => store.clear_marker(),
    }
}

/// Whether the daemon answers or not, a hook before a tool asks for the same session: with the
/// same id, agent, tool and file.
pub proof fn law_hook_starts_the_same_session(h: ClaudeHookInputView, hooked: HookedAgentView)
    ensures
        ({
            let m = crate::session::metadata_in(told_of_tool(h, hooked));
            let asked = crate::ipc::requested_start(agent_in(h, hooked), m);
            let own = own_start(h, hooked);
            &&& asked.session_id == own.session_id
            &&& asked.agent == own.agent
            &&& asked.tool_name == own.tool_name
            &&& asked.intended_file == own.intended_file
            &&& asked.activate && own.activate
        }),
{
    reveal_strlit("session_id");
    reveal_strlit("tool_name");
    reveal_strlit("file_path");
    reveal_strlit("tool");
    reveal_strlit("intended_file");
    assert("session_id"@.len() == 10);
    assert("tool_name"@.len() == 9);
    assert("file_path"@.len() == 9);
    assert("tool"@.len() == 4);
    assert("intended_file"@.len() == 13);
    assert("tool_name"@[0] != "file_path"@[0]);
    let t = told_of_tool(h, hooked);
    assert(crate::json::member(t, "session_id"@) == Some(
        crate::json::JsonTree::Text(h.session_id),
    ));
    assert(crate::json::member(t, "tool_name"@) == Some(crate::json::JsonTree::Text(h.tool_name)));
    assert(crate::json::member(t, "intended_file"@) is None);
    assert(crate::json::member(t, "file_path"@) == Some(crate::json::text_or_null(file_in(h))));
}

/// The session that a hook before a tool starts: through the daemon, or here.
pub open spec fn hook_start(
    h: ClaudeHookInputView,
    hooked: HookedAgentView,
    by_daemon: bool,
) -> SessionStartView {
    if by_daemon {
        crate::ipc::requested_start(
            agent_in(h, hooked),
            crate::session::metadata_in(told_of_tool(h, hooked)),
        )
    } else {
        own_start(h, hooked)
    }
}

/// A hook after a tool ends what the hook before it began, whether the daemon does either or not,
/// and whatever the tool did in between, as long as no other session was started or ended: the
/// marker is gone, and of the session everything is as the first hook left it, but that it has
/// ended now.
pub proof fn law_hook_ends_what_it_began(
    i: Image,
    h: ClaudeHookInputView,
    hooked: HookedAgentView,
    by_daemon: bool,
    ts_ns: i64,
    between: Image,
    parsed: Option<ParsedSessionMetadataView>,
    later: i64,
    place: Seq<char>,
)
    requires
        crate::store::sound(i),
        ({
            let s = hook_start(h, hooked, by_daemon);
            let j = crate::image::replay(i, crate::session::starting(i, s, h.session_id, ts_ns));
            &&& between.sessions == j.sessions
            &&& between.marker == j.marker
        }),
        parsed is None || parsed == crate::session::metadata_read(None),
    ensures
        ({
            let s = hook_start(h, hooked, by_daemon);
            let j = crate::image::replay(i, crate::session::starting(i, s, h.session_id, ts_ns));
            let row = crate::store::changes::session_with(j, h.session_id)->0;
            let run = crate::session::ending(between, h.session_id, parsed, true, later, place);
            let k = crate::image::replay(between, run.0);
            &&& forall|fresh: Seq<char>| #[trigger]
                crate::session::starting_id(s, fresh) == h.session_id
            &&& j.marker == MarkerView::Active(
                crate::session::starting_marker(s, h.session_id, ts_ns),
            )
            &&& crate::store::changes::session_with(j, h.session_id) is Some
            &&& row.agent == agent_in(h, hooked)
            &&& run.1 is None
            &&& k.marker == MarkerView::Absent
            &&& crate::store::changes::session_with(k, h.session_id) == Some(
                SessionRowView { ended_at_ns: Some(later), ..row },
            )
        }),
{
    let s = hook_start(h, hooked, by_daemon);
    law_hook_starts_the_same_session(h, hooked);
    crate::session::law_start_then_end(i, s, h.session_id, ts_ns, parsed, later, place);
    let j = crate::image::replay(i, crate::session::starting(i, s, h.session_id, ts_ns));
    assert(crate::store::changes::session_with(between, h.session_id)
        == crate::store::changes::session_with(j, h.session_id));
    crate::session::law_end_closes_the_active_session(
        between,
        h.session_id,
        parsed,
        later,
        place,
    );
}

/// A hook works on the file and for the agent that it is told of, and starts a session with the id
/// and the tool that it is told of; the daemon is told all of that.
pub proof fn law_a_hook_says_what_it_is_told(h: ClaudeHookInputView, hooked: HookedAgentView)
    ensures
        h.tool_input matches crate::json::JsonTree::Object(m) ==> file_in(h) == (
        if m.contains_key("file_path"@) && m["file_path"@] is Text {
            Some(m["file_path"@]->Text_0)
        } else {
            None
        }),
        h.agent is Some ==> agent_in(h, hooked) == h.agent->0,
        h.agent is None ==> agent_in(h, hooked) == hooked.id,
        ({
            let own = own_start(h, hooked);
            &&& own.session_id == Some(h.session_id)
            &&& own.agent == agent_in(h, hooked)
            &&& own.tool_name == Some(h.tool_name)
            &&& own.intended_file == file_in(h)
            &&& own.activate
        }),
        asked_before(h, hooked) == (RequestView::SessionStart {
            agent: agent_in(h, hooked),
            metadata: Some(crate::json::json_shown(told_of_tool(h, hooked))),
        }),
        crate::json::text_member(told_of_tool(h, hooked), "session_id"@) == Some(h.session_id),
        crate::json::text_member(told_of_tool(h, hooked), "tool_name"@) == Some(h.tool_name),
        crate::json::text_member(told_of_tool(h, hooked), "file_path"@) == file_in(h),
        crate::json::text_member(told_of_tool(h, hooked), "tool"@) == Some(agent_in(h, hooked)),
{
    reveal_strlit("session_id");
    reveal_strlit("tool_name");
    reveal_strlit("file_path");
    reveal_strlit("tool");
    assert("session_id"@.len() == 10);
    assert("tool_name"@.len() == 9);
    assert("file_path"@.len() == 9);
    assert("tool"@.len() == 4);
    assert("tool_name"@[0] != "file_path"@[0]);
}

/// A hook does the work itself where no daemon answers, is done where the daemon has done it, and
/// fails where the daemon refuses or answers something else.
pub proof fn law_a_hook_goes_by_the_answer(
    h: ClaudeHookInputView,
    hooked: HookedAgentView,
    reply: Option<ResponseView>,
)
    ensures
        next_before(h, reply, hooked) is Start <==> reply is None,
        next_before(h, None, hooked) == HookStepView::Start(own_start(h, hooked)),
        next_before(h, reply, hooked) is Done <==> reply is Some && reply->0 is SessionStarted,
        next_after(h, reply) is End <==> reply is None,
        next_after(h, None) == (HookStepView::End { session_id: h.session_id }),
        next_after(h, reply) is Done <==> reply is Some && reply->0 is SessionEnded,
        reply matches Some(ResponseView::Error { message }) ==> next_before(h, reply, hooked)
            == (HookStepView::Fail { message }) && next_after(h, reply) == (HookStepView::Fail {
            message,
        }),
{
}

} // verus!
