//! Sessions, hooks and the daemon's requests.
use agent_undo::attribution::HookedAgent;
use agent_undo::failure::Failure;
use agent_undo::hook::{
    active_session_path, handle_post, handle_pre, read_active_session, run_post, run_pre,
    write_active_session, ActiveSession, ClaudeHookInput, HookStep,
};
use agent_undo::image::{Effect, Marker};
use agent_undo::ipc::{
    error_response, handle_request, session_from, Request, Response,
};
use agent_undo::json::{get_text, get_text_or, json_merge, pretty_json, texts_value};
use agent_undo::paths::ProjectPaths;
use agent_undo::rows::NewEvent;
use agent_undo::session::{
    end, end_at, parse_metadata, start, start_at, ParsedSessionMetadata, SessionStart,
};
use agent_undo::store::Store;

fn paths() -> ProjectPaths {
    let root = "/work/project";
    ProjectPaths {
        root: root.to_string(),
        data_dir: format!("{root}/.agent-undo"),
        objects_dir: format!("{root}/.agent-undo/objects"),
        db_path: format!("{root}/.agent-undo/timeline.db"),
        config_path: format!("{root}/.agent-undo/config.toml"),
        bin_dir: format!("{root}/.agent-undo/bin"),
        socket_path: format!("{root}/.agent-undo/daemon.sock"),
        socket_info_path: format!("{root}/.agent-undo/daemon.sock.path"),
    }
}

fn hooked() -> HookedAgent {
    HookedAgent {
        title: "Helper Pro".to_string(),
        short: "Helper".to_string(),
        id: "helper-pro".to_string(),
        mark: "helper".to_string(),
    }
}

fn input(agent: Option<&str>, tool_input: &str) -> ClaudeHookInput {
    ClaudeHookInput {
        session_id: "s-1".to_string(),
        tool_name: "Write".to_string(),
        agent: agent.map(|s| s.to_string()),
        tool_input: serde_json::from_str(tool_input).expect("a document"),
        tool_response: None,
    }
}

fn plain(id: Option<&str>, agent: &str) -> SessionStart {
    SessionStart {
        session_id: id.map(|s| s.to_string()),
        agent: agent.to_string(),
        prompt: None,
        model: None,
        metadata: None,
        prompt_output: None,
        tool_name: None,
        intended_file: None,
        activate: true,
    }
}

fn ask(store: &mut Store, stop: &mut bool, request: Request, blame: Option<String>) -> Response {
    handle_request(store, stop, request, blame).expect("answered")
}

#[test]
fn socket_server_handles_status_and_session_requests() {
    let mut store = Store::init(paths());
    let hash = store.write_blob(b"hello world\n").expect("write blob");
    store
        .record_event(&NewEvent {
            ts_ns: 1,
            path: "f.rs".into(),
            before_hash: None,
            after_hash: Some(hash),
            size_before: None,
            size_after: Some(12),
            attribution: "initial-scan".into(),
            confidence: "high".into(),
            session_id: None,
            pid: None,
            process_name: None,
            tool_name: None,
        })
        .expect("record event");

    let mut stop = false;

    match ask(&mut store, &mut stop, Request::Status, None) {
        Response::Status { events, .. } => assert_eq!(events, 1),
        other => panic!("unexpected status response: {other:?}"),
    }

    match ask(&mut store, &mut stop, Request::Sessions { limit: 5 }, None) {
        Response::Sessions { sessions } => assert!(sessions.is_empty()),
        other => panic!("unexpected sessions response: {other:?}"),
    }

    let session_id = match ask(
        &mut store,
        &mut stop,
        Request::SessionStart {
            agent: "codex".into(),
            metadata: Some(r#"{"prompt":"refactor auth","tool_name":"Write"}"#.into()),
        },
        None,
    ) {
        Response::SessionStarted { session_id } => session_id,
        other => panic!("unexpected session start response: {other:?}"),
    };

    let active = read_active_session(&store)
        .expect("read active session")
        .expect("active session exists");
    assert_eq!(active.agent, "codex");

    match ask(
        &mut store,
        &mut stop,
        Request::SessionEnd { session_id: session_id.clone(), metadata: None },
        None,
    ) {
        Response::SessionEnded => {}
        other => panic!("unexpected session end response: {other:?}"),
    }

    match ask(
        &mut store,
        &mut stop,
        Request::FilteredEvents {
            agent: Some("initial-scan".into()),
            path_substring: Some("f.rs".into()),
            since_ns: None,
            limit: 10,
        },
        None,
    ) {
        Response::Events { events } => assert_eq!(events.len(), 1),
        other => panic!("unexpected events response: {other:?}"),
    }

    match ask(&mut store, &mut stop, Request::DiffEvent { event_id: 1 }, None) {
        Response::Text { content } => assert!(content.contains("--- a/f.rs")),
        other => panic!("unexpected diff response: {other:?}"),
    }

    match ask(
        &mut store,
        &mut stop,
        Request::ShowEvent { event_id: 1, before: false, after: true },
        None,
    ) {
        Response::Bytes { bytes } => assert!(!bytes.is_empty()),
        other => panic!("unexpected show response: {other:?}"),
    }

    match ask(
        &mut store,
        &mut stop,
        Request::BlameFile { path: "f.rs".into() },
        Some("f.rs initial-scan".to_string()),
    ) {
        Response::Text { content } => assert!(content.contains("initial-scan")),
        other => panic!("unexpected blame response: {other:?}"),
    }

    match ask(&mut store, &mut stop, Request::Shutdown, None) {
        Response::ShutdownAccepted => {}
        other => panic!("unexpected shutdown response: {other:?}"),
    }
    assert!(stop, "shutdown request should flip stop flag");

    assert!(
        read_active_session(&store).expect("read active session after end").is_none(),
        "active session should be cleared"
    );
}

#[test]
fn requests_that_cannot_be_met_are_refused() {
    let mut store = Store::init(paths());
    let mut stop = false;
    match handle_request(&mut store, &mut stop, Request::DiffEvent { event_id: 5 }, None) {
        Err(Failure::NoEvent { id }) => assert_eq!(id, 5),
        other => panic!("unexpected outcome: {other:?}"),
    }
    match handle_request(&mut store, &mut stop, Request::BlameFile { path: "a".into() }, None) {
        Err(f @ Failure::NoBlame { .. }) => {
            assert_eq!(f.message(), "no line attribution for a")
        }
        other => panic!("unexpected outcome: {other:?}"),
    }
    match handle_request(
        &mut store,
        &mut stop,
        Request::SessionStart { agent: "x".into(), metadata: Some("no json".into()) },
        None,
    ) {
        Err(f @ Failure::Metadata) => {
            assert!(f.message().starts_with("`--metadata` must be valid JSON"))
        }
        other => panic!("unexpected outcome: {other:?}"),
    }
    assert!(!stop);
    assert_eq!(store.take_effects().len(), 0);
    match error_response("why") {
        Response::Error { message } => assert_eq!(message, "daemon control error: why"),
        other => panic!("unexpected response: {other:?}"),
    }
}

#[test]
fn questions_change_nothing() {
    let mut store = Store::init(paths());
    let mut stop = false;
    for request in [
        Request::Status,
        Request::Sessions { limit: 5 },
        Request::SessionEvents { session_id: "s".into() },
        Request::OopsPlan { window_ns: 10 },
    ] {
        ask(&mut store, &mut stop, request, None);
    }
    assert!(!stop);
    assert_eq!(store.take_effects().len(), 0);
}

#[test]
fn a_session_starts_and_ends() {
    let mut store = Store::init(paths());
    let mut s = plain(None, "codex");
    s.prompt = Some("do it".to_string());
    s.tool_name = Some("Write".to_string());
    s.intended_file = Some("a.rs".to_string());
    let id = start_at(&mut store, s, 10, "cafe");
    let row = store.latest_session().expect("session");
    assert_eq!(row.id, id);
    assert!(id.contains("cafe"));
    assert_eq!(row.prompt, Some("do it".to_string()));
    assert_eq!(row.started_at_ns, 10);
    let active = read_active_session(&store).unwrap().expect("active");
    assert_eq!(active.session_id, id);
    assert_eq!(active.tool_name, Some("Write".to_string()));
    assert_eq!(active.intended_file, Some("a.rs".to_string()));
    end_at(&mut store, &id, None, true, 20).expect("end");
    assert_eq!(store.latest_session().expect("session").ended_at_ns, Some(20));
    assert!(read_active_session(&store).unwrap().is_none());
}

#[test]
fn a_named_session_keeps_its_name_and_others_stay_active() {
    let mut store = Store::init(paths());
    assert_eq!(start(&mut store, plain(Some("mine"), "codex")), "mine");
    let mut quiet = plain(Some("other"), "codex");
    quiet.activate = false;
    start(&mut store, quiet);
    end(&mut store, "other", None, true).expect("end");
    assert_eq!(read_active_session(&store).unwrap().expect("active").session_id, "mine");
    end(&mut store, "mine", None, false).expect("end");
    assert!(read_active_session(&store).unwrap().is_some());
}

#[test]
fn fresh_sessions_have_fresh_ids() {
    let mut store = Store::init(paths());
    let a = start(&mut store, plain(None, "codex"));
    let b = start(&mut store, plain(None, "codex"));
    assert_ne!(a, b);
    assert!(!a.is_empty());
}

#[test]
fn a_marker_that_cannot_be_read_is_an_error() {
    let mut store = Store::init(paths());
    store.load_marker(Marker::Unreadable);
    match read_active_session(&store) {
        Err(f @ Failure::Marker { .. }) => assert_eq!(
            f.message(),
            "parsing /work/project/.agent-undo/active-session.json"
        ),
        other => panic!("unexpected outcome: {other:?}"),
    }
    assert_eq!(
        active_session_path(&paths()),
        "/work/project/.agent-undo/active-session.json"
    );
}

#[test]
fn the_marker_is_written_and_cleared() {
    let mut store = Store::init(paths());
    let a = ActiveSession {
        session_id: "s".to_string(),
        agent: "codex".to_string(),
        started_at_ns: 1,
        tool_name: None,
        intended_file: None,
    };
    write_active_session(&mut store, Some(&a));
    write_active_session(&mut store, None);
    match &store.take_effects()[..] {
        [Effect::WriteMarker(w), Effect::ClearMarker] => assert_eq!(w.session_id, "s"),
        other => panic!("unexpected effects: {other:?}"),
    }
}

#[test]
fn metadata_is_read() {
    let m: ParsedSessionMetadata = parse_metadata(Some(
        r#"{"session_id":"s","prompt":"p","model":"m","tool_name":"t","file_path":"f"}"#,
    ))
    .expect("metadata");
    assert_eq!(m.session_id, Some("s".to_string()));
    assert_eq!(m.prompt, Some("p".to_string()));
    assert_eq!(m.model, Some("m".to_string()));
    assert_eq!(m.tool_name, Some("t".to_string()));
    assert_eq!(m.intended_file, Some("f".to_string()));
    assert!(m.raw.is_some());
    let none = parse_metadata(None).expect("no metadata");
    assert!(none.raw.is_none() && none.prompt.is_none());
    assert!(matches!(parse_metadata(Some("{")), Err(Failure::Metadata)));
    let s = session_from("codex".to_string(), m);
    assert_eq!(s.agent, "codex");
    assert_eq!(s.session_id, Some("s".to_string()));
    assert!(s.activate);
}

#[test]
fn a_hook_before_a_tool_starts_its_session() {
    let i = input(None, r#"{"file_path":"src/a.rs"}"#);
    assert_eq!(i.file_path(), Some("src/a.rs".to_string()));
    assert!(handle_pre(&i, false, &hooked()).is_none());
    match handle_pre(&i, true, &hooked()) {
        Some(Request::SessionStart { agent, metadata }) => {
            assert_eq!(agent, "helper-pro");
            let m = parse_metadata(metadata.as_deref()).expect("metadata");
            assert_eq!(m.session_id, Some("s-1".to_string()));
            assert_eq!(m.tool_name, Some("Write".to_string()));
            assert_eq!(m.intended_file, Some("src/a.rs".to_string()));
        }
        other => panic!("unexpected request: {other:?}"),
    }
    match run_pre(&i, None, &hooked()) {
        HookStep::Start(s) => {
            assert_eq!(s.session_id, Some("s-1".to_string()));
            assert_eq!(s.agent, "helper-pro");
            assert_eq!(s.intended_file, Some("src/a.rs".to_string()));
            assert_eq!(s.metadata, Some(r#"{"tool":"Write"}"#.to_string()));
        }
        other => panic!("unexpected step: {other:?}"),
    }
    let started = Response::SessionStarted { session_id: "s-1".to_string() };
    assert!(matches!(run_pre(&i, Some(started), &hooked()), HookStep::Done));
    match run_pre(&i, Some(Response::SessionEnded), &hooked()) {
        HookStep::Fail { message } => assert_eq!(message, "unexpected daemon response"),
        other => panic!("unexpected step: {other:?}"),
    }
    let named = input(Some("codex"), "{}");
    assert_eq!(named.file_path(), None);
    match handle_pre(&named, true, &hooked()) {
        Some(Request::SessionStart { agent, .. }) => assert_eq!(agent, "codex"),
        other => panic!("unexpected request: {other:?}"),
    }
}

#[test]
fn a_hook_after_a_tool_ends_its_session() {
    let i = input(None, "{}");
    assert!(handle_post(&i, false).is_none());
    match handle_post(&i, true) {
        Some(Request::SessionEnd { session_id, metadata }) => {
            assert_eq!(session_id, "s-1");
            assert!(metadata.is_none());
        }
        other => panic!("unexpected request: {other:?}"),
    }
    match run_post(&i, None) {
        HookStep::End { session_id } => assert_eq!(session_id, "s-1"),
        other => panic!("unexpected step: {other:?}"),
    }
    assert!(matches!(run_post(&i, Some(Response::SessionEnded)), HookStep::Done));
    match run_post(&i, Some(Response::Error { message: "no".to_string() })) {
        HookStep::Fail { message } => assert_eq!(message, "no"),
        other => panic!("unexpected step: {other:?}"),
    }
}

#[test]
fn a_hook_after_a_tool_ends_what_the_hook_before_began() {
    let i = input(None, r#"{"file_path":"src/\"a\" \\ b\n.rs"}"#);
    for (daemon_before, daemon_after) in [(true, true), (true, false), (false, true), (false, false)]
    {
        let mut store = Store::init(paths());
        let mut stop = false;
        let reply = if daemon_before {
            let request = handle_pre(&i, true, &hooked()).expect("a request");
            Some(ask(&mut store, &mut stop, request, None))
        } else {
            None
        };
        match run_pre(&i, reply, &hooked()) {
            HookStep::Start(s) => assert_eq!(start(&mut store, s), "s-1"),
            HookStep::Done => {}
            other => panic!("unexpected step: {other:?}"),
        }
        let active = read_active_session(&store).expect("readable").expect("active");
        assert_eq!(active.session_id, "s-1");
        assert_eq!(active.intended_file, Some("src/\"a\" \\ b\n.rs".to_string()));
        let began = store.latest_session().expect("session");
        assert_eq!((began.agent.as_str(), began.ended_at_ns), ("helper-pro", None));
        let reply = if daemon_after {
            let request = handle_post(&i, true).expect("a request");
            Some(ask(&mut store, &mut stop, request, None))
        } else {
            None
        };
        match run_post(&i, reply) {
            HookStep::End { session_id } => {
                end(&mut store, &session_id, None, true).expect("ended");
            }
            HookStep::Done => {}
            other => panic!("unexpected step: {other:?}"),
        }
        assert!(read_active_session(&store).expect("readable").is_none());
        let ended = store.latest_session().expect("session");
        assert!(ended.ended_at_ns.is_some());
        assert_eq!(ended.agent, began.agent);
        assert_eq!(ended.started_at_ns, began.started_at_ns);
        assert_eq!(ended.prompt, began.prompt);
        assert_eq!(ended.model, began.model);
        assert_eq!(ended.metadata, began.metadata);
    }
}

#[test]
fn documents_are_merged_member_by_member() {
    assert_eq!(json_merge("{\"a\":1,\"b\":{\"c\":1}}", "{\"b\":2}"), "{\"a\":1,\"b\":2}");
    assert_eq!(json_merge("no json", "{\"b\":2}"), "{\"b\":2}");
    assert_eq!(json_merge("{\"a\":1}", "no json"), "{\"a\":1}");
    assert_eq!(json_merge("[1]", "{\"b\":2}"), "[1]");
}

#[test]
fn documents_are_read_and_written() {
    let v: serde_json::Value =
        serde_json::from_str(r#"{"a":"x","b":1,"c":null}"#).expect("a document");
    assert_eq!(get_text(&v, "a"), Some("x".to_string()));
    assert_eq!(get_text(&v, "b"), None);
    assert_eq!(get_text_or(&v, "z", "a"), Some("x".to_string()));
    assert_eq!(get_text_or(&v, "c", "a"), None);
    let list = texts_value(&vec!["x".to_string(), "y".to_string()]);
    assert_eq!(pretty_json(&list), Some("[\n  \"x\",\n  \"y\"\n]".to_string()));
}
