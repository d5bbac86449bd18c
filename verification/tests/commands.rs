//! What the commands decide and print.
use agent_undo::cli::control::{
    check_init, closing_lines, installing_lines, pid_in, removing_lines, spawn_step, started_lines,
    status_json, status_lines, stop_start, stop_step, Installing, SpawnStep, StopAction, StopEvent,
    StopState, STOP_LOOKS,
};
use agent_undo::cli::doctor::{
    daemon_lines, doctor_json, end_lines, has_hook, hooks_lines, hooks_outcome_text, marker_lines,
    missing_wrappers, project_lines, settings_lines, socket_hint, wrap_step, wrappers_lines,
    Findings, Preset, Settings,
};
use agent_undo::cli::log::{
    check_since, choose_pin, closed_text, log_output, moment_before, parse_since, pin_row_text,
    pinned_text, session_row_text, LogOutput, PinStep,
};
use agent_undo::cli::reply::{
    asked_bytes, asked_ended, asked_events, asked_oops, asked_paths, asked_sessions, asked_started,
    asked_text, reported_status, Asked,
};
use agent_undo::cli::undo::{
    choose_diff, choose_restore, empty_revert_text, exec_begin_text, exec_end_text, exec_session, gc_lines,
    oops_done_lines, oops_preview_lines, question_text, restore_here, restore_request, restore_told,
    revert_apply, revert_preview, start_exec, unpin_lines, DiffStep, RestoreStep, RevertStep, Told,
};
use agent_undo::cli::wrap::{choose_wrapper, next_lines, preset_text, Asked as Wanted};
use agent_undo::failure::Failure;
use agent_undo::image::Entry;
use agent_undo::ipc::{Request, Response};
use agent_undo::json::pretty_json;
use agent_undo::paths::ProjectPaths;
use agent_undo::rows::{ActiveSession, EventRow, NewEvent, PinRow, SessionRow};
use agent_undo::store::Store;

fn paths() -> ProjectPaths {
    let root = "/work/project";
    ProjectPaths {
        root: root.to_string(),
        data_dir: format!("{root}/.agent-undo"),
        objects_dir: format!("{root}/.agent-undo/objects"),
        db_path: format!("{root}/.agent-undo/timeline.db"),
        config_path: format!("{root}/.agent-undo/config.toml"),
        bin_dir: format!("{root}/.agent-undo/bin"),
        socket_path: format!("{root}/.agent-undo/daemon.sock"),
        socket_info_path: format!("{root}/.agent-undo/daemon.sock.path"),
    }
}

fn row(id: i64, path: &str, before: Option<&str>, after: Option<&str>) -> EventRow {
    EventRow {
        id,
        ts_ns: id * 10,
        path: path.to_string(),
        before_hash: before.map(|s| s.to_string()),
        after_hash: after.map(|s| s.to_string()),
        size_before: None,
        size_after: None,
        attribution: "codex".to_string(),
        session_id: None,
    }
}

fn session(id: &str) -> SessionRow {
    SessionRow {
        id: id.to_string(),
        agent: "codex".to_string(),
        started_at_ns: 10,
        ended_at_ns: None,
        prompt: None,
        model: None,
        metadata: None,
        prompt_output: None,
    }
}

fn active() -> ActiveSession {
    ActiveSession {
        session_id: "s-1".to_string(),
        agent: "codex".to_string(),
        started_at_ns: 5,
        tool_name: None,
        intended_file: None,
    }
}

fn project() -> Store {
    let mut store = Store::init(paths());
    let one = store.write_blob(b"one\n").unwrap();
    let two = store.write_blob(b"two\n").unwrap();
    let mut record = |ts_ns: i64, before: Option<&String>, after: Option<&String>| {
        store
            .record_event(&NewEvent {
                ts_ns,
                path: "a.txt".to_string(),
                before_hash: before.cloned(),
                after_hash: after.cloned(),
                size_before: None,
                size_after: None,
                attribution: "codex".to_string(),
                confidence: "high".to_string(),
                session_id: Some("s".to_string()),
                pid: None,
                process_name: None,
                tool_name: None,
            })
            .unwrap()
    };
    record(10, None, Some(&one));
    record(20, Some(&one), Some(&two));
    store.upsert_session(&session("s"));
    store.create_pin_at("here", 25).unwrap();
    store.upsert_file_state("a.txt", &two, 4, 20);
    store.take_effects();
    store.load_file("a.txt", Some(Entry::File(b"two\n".to_vec())));
    store
}

#[test]
fn lengths_of_time_are_read() {
    assert_eq!(parse_since("5m"), Ok(300_000_000_000));
    assert_eq!(parse_since(" 2h "), Ok(7_200_000_000_000));
    assert_eq!(parse_since("1d"), Ok(86_400_000_000_000));
    assert_eq!(parse_since("-3s"), Ok(-3_000_000_000));
    assert_eq!(
        parse_since("  "),
        Err("--since cannot be empty (try '5m', '2h', '1d')".to_string())
    );
    assert_eq!(
        parse_since("xm"),
        Err("could not parse --since 'xm': try '5m', '2h', '1d'".to_string())
    );
    assert_eq!(parse_since("5y"), Err("unknown --since unit 'y', use s/m/h/d".to_string()));
    assert!(check_since("5m") && check_since("") && check_since("5y"));
    assert!(!check_since("9223372036854775807d"));
    assert!(!check_since("5é"));
    assert_eq!(moment_before(10, 3), Some(7));
    assert_eq!(moment_before(i64::MIN, 1), None);
}

#[test]
fn events_are_logged_oldest_first() {
    let events = vec![
        row(12, "b", Some("0123456789abcdef"), None),
        row(3, "a", None, Some("fedcba9876543210")),
    ];
    let whens = vec!["late".to_string(), "early".to_string()];
    match log_output(&events, &whens, false) {
        LogOutput::Lines(lines) => assert_eq!(
            lines,
            vec![
                "#3     early  create a  [codex]  fedcba987654".to_string(),
                "#12    late  delete b  [codex]  0123456789ab".to_string(),
            ]
        ),
        other => panic!("unexpected output: {other:?}"),
    }
    match log_output(&events, &whens, true) {
        LogOutput::Document(doc) => {
            assert_eq!(doc[0]["id"], 3);
            assert_eq!(doc[0]["kind"], "create");
            assert_eq!(doc[0]["timestamp"], "early");
            assert_eq!(doc[1]["before_hash"], "0123456789abcdef");
            assert!(doc[1]["after_hash"].is_null());
        }
        other => panic!("unexpected output: {other:?}"),
    }
    for (json, said) in
        [(true, "[]"), (false, "no events yet. run `agent-undo serve` and edit a file.")]
    {
        match log_output(&Vec::new(), &Vec::new(), json) {
            LogOutput::Lines(lines) => assert_eq!(lines, vec![said.to_string()]),
            other => panic!("unexpected output: {other:?}"),
        }
    }
    let odd = vec![row(1, "a", None, Some("01234567890é"))];
    assert!(matches!(log_output(&odd, &vec!["t".to_string()], false), LogOutput::Unshown));
}

#[test]
fn sessions_and_pins_are_listed() {
    assert_eq!(
        session_row_text(&session("0123456789abcdef"), "then", &None),
        "0123456789ab  codex         then → (open)"
    );
    assert_eq!(
        session_row_text(&session("s"), "then", &Some("now".to_string())),
        "s  codex         then → now"
    );
    assert_eq!(closed_text("s"), "closed session s");
    let pin = PinRow { id: 2, event_id: 7, label: "good".to_string(), created_at_ns: 1 };
    assert_eq!(pin_row_text(&pin, "then"), "#2     then  event=7  good");
    assert_eq!(pinned_text(2, "good"), "pinned current state as #2: good");
    assert!(matches!(choose_pin(None, true, true), PinStep::ListJson));
    match choose_pin(Some("x".to_string()), true, false) {
        PinStep::Fail { message } => {
            assert_eq!(message, "use `au pin --list` or `au pin <label>`, not both")
        }
        other => panic!("unexpected step: {other:?}"),
    }
    match choose_pin(None, false, false) {
        PinStep::Fail { message } => {
            assert_eq!(message, "usage: au pin <label>  OR  au pin --list")
        }
        other => panic!("unexpected step: {other:?}"),
    }
    match choose_pin(Some("x".to_string()), false, true) {
        PinStep::Fail { message } => assert_eq!(message, "use `--json` with `au pin --list`"),
        other => panic!("unexpected step: {other:?}"),
    }
    assert!(matches!(choose_pin(Some("x".to_string()), false, false), PinStep::Create { .. }));
}

#[test]
fn replies_of_the_daemon_are_told_apart() {
    assert!(matches!(asked_text(None), Asked::Alone));
    match asked_text(Some(Response::Text { content: "t".to_string() })) {
        Asked::Got(t) => assert_eq!(t, "t"),
        other => panic!("unexpected: {other:?}"),
    }
    match asked_bytes(Some(Response::Error { message: "no".to_string() })) {
        Asked::Refused(m) => assert_eq!(m, "no"),
        other => panic!("unexpected: {other:?}"),
    }
    match asked_paths(Some(Response::SessionEnded)) {
        Asked::Refused(m) => assert_eq!(m, "unexpected daemon response"),
        other => panic!("unexpected: {other:?}"),
    }
    assert!(matches!(asked_sessions(Some(Response::Sessions { sessions: vec![] })), Asked::Got(_)));
    assert!(matches!(asked_events(Some(Response::Events { events: vec![] })), Asked::Got(_)));
    assert!(matches!(asked_ended(Some(Response::SessionEnded)), Asked::Got(_)));
    let started = Response::SessionStarted { session_id: "s".to_string() };
    assert!(matches!(asked_started(Some(started)), Asked::Got(_)));
    let refused = Response::Error { message: "no".to_string() };
    assert!(matches!(asked_oops(Some(refused)), Asked::Alone));
    let status = Response::Status { events: 4, active_session: Some(active()) };
    match reported_status(Some(status)) {
        Some((4, Some(a))) => assert_eq!(a.session_id, "s-1"),
        other => panic!("unexpected: {other:?}"),
    }
}

#[test]
fn a_restore_is_asked_of_the_daemon_or_done_here() {
    let step = choose_restore(Some(2), Some("x".to_string()), None);
    assert!(matches!(step, RestoreStep::Event { id: 2 }));
    assert!(matches!(restore_request(&step), Some(Request::RestoreEvent { event_id: 2 })));
    assert!(matches!(restore_told(&step, None), Told::Alone));
    let event = row(2, "a.txt", Some("0123456789abcdef"), None);
    match restore_told(&step, Some(Response::Event { event })) {
        Told::Lines(lines) => assert_eq!(
            lines,
            vec!["restored a.txt to state before event #2 (0123456789ab)".to_string()]
        ),
        other => panic!("unexpected: {other:?}"),
    }
    let event = row(2, "a.txt", Some("0123"), None);
    assert!(matches!(restore_told(&step, Some(Response::Event { event })), Told::Unshown));

    let mut store = project();
    match restore_here(&mut store, &step) {
        Told::Lines(lines) => {
            assert!(lines[0].starts_with("restored a.txt to state before event #2 ("))
        }
        other => panic!("unexpected: {other:?}"),
    }
    match store.entry("a.txt") {
        Some(Entry::File(bytes)) => assert_eq!(bytes, b"one\n"),
        other => panic!("unexpected entry: {other:?}"),
    }
    match restore_here(&mut store, &RestoreStep::Event { id: u64::MAX }) {
        Told::Failed(m) => assert_eq!(m, "no event #18446744073709551615"),
        other => panic!("unexpected: {other:?}"),
    }
    match restore_here(&mut store, &choose_restore(None, Some("b".to_string()), None)) {
        Told::Failed(m) => assert_eq!(m, "no undoable events for b"),
        other => panic!("unexpected: {other:?}"),
    }
    match restore_here(&mut store, &choose_restore(None, None, Some("none".to_string()))) {
        Told::Lines(lines) => {
            assert_eq!(lines, vec!["no events found for session none".to_string()])
        }
        other => panic!("unexpected: {other:?}"),
    }
    match restore_here(&mut store, &choose_restore(None, None, Some("s".to_string()))) {
        Told::Lines(lines) => assert_eq!(
            lines,
            vec![
                "rolled back session s — restored 1 file(s):".to_string(),
                "  a.txt".to_string(),
            ]
        ),
        other => panic!("unexpected: {other:?}"),
    }
    match restore_here(&mut store, &choose_restore(None, None, None)) {
        Told::Lines(lines) => {
            assert!(lines[0].starts_with("usage: agent-undo restore <event-id>\n   or: "))
        }
        other => panic!("unexpected: {other:?}"),
    }
}

#[test]
fn a_revert_is_shown_before_it_is_done() {
    let mut store = project();
    let plan = match revert_preview(&store, Some(None), None, None, false).expect("preview") {
        RevertStep::ShowText { text, prompt, plan } => {
            assert!(text.starts_with("Would revert event #2 (1 file(s)):"));
            assert_eq!(prompt, "Roll back these 1 file(s)?");
            plan
        }
        other => panic!("unexpected step: {other:?}"),
    };
    match revert_preview(&store, None, Some(Some("s".to_string())), None, true).expect("preview") {
        RevertStep::ShowReport { report, .. } => {
            assert_eq!(report.revert_type, "session");
            assert_eq!(report.revert_target, "s");
            assert_eq!(report.file_count, 1);
        }
        other => panic!("unexpected step: {other:?}"),
    }
    match revert_preview(&store, None, Some(Some("none".to_string())), None, true).expect("empty") {
        RevertStep::Say(text) => assert_eq!(
            text,
            r#"{"revert_type":"session","revert_target":"none","file_count":0}"#
        ),
        other => panic!("unexpected step: {other:?}"),
    }
    let label = "a \"quoted\" \\ label";
    let said = empty_revert_text("pin", label);
    assert_eq!(
        said,
        r#"{"revert_type":"pin","revert_target":"a \"quoted\" \\ label","file_count":0}"#
    );
    let doc: serde_json::Value = serde_json::from_str(&said).expect("a document");
    assert_eq!(doc["revert_target"], label);
    match revert_preview(&store, None, Some(Some("none".to_string())), None, false).expect("empty") {
        RevertStep::Say(text) => assert_eq!(text, "nothing to revert"),
        other => panic!("unexpected step: {other:?}"),
    }
    match revert_preview(&store, None, None, None, false).expect("usage") {
        RevertStep::Say(text) => assert!(text.starts_with("usage: au revert --event [id]")),
        other => panic!("unexpected step: {other:?}"),
    }
    let lines = revert_apply(&mut store, &plan, false).expect("apply");
    assert_eq!(lines[1], "restored 1 file(s):");
    assert_eq!(lines[2], "  a.txt");
    let lines = revert_apply(&mut store, &plan, true).expect("apply");
    assert_eq!(lines, vec!["restored 1 file(s)".to_string()]);
}

#[test]
fn a_revert_without_a_target_fails() {
    let store = Store::init(paths());
    match revert_preview(&store, Some(None), None, None, false) {
        Err(f @ Failure::NoRecentEvents) => assert_eq!(f.message(), "no recent events"),
        other => panic!("unexpected outcome: {other:?}"),
    }
    match revert_preview(&store, None, Some(None), None, false) {
        Err(f @ Failure::NoSessions) => assert_eq!(f.message(), "no sessions found"),
        other => panic!("unexpected outcome: {other:?}"),
    }
    match revert_preview(&store, None, None, Some(None), false) {
        Err(f @ Failure::NoPins) => assert_eq!(f.message(), "no pins found"),
        other => panic!("unexpected outcome: {other:?}"),
    }
}

#[test]
fn an_oops_is_shown_and_told() {
    let plan = vec![
        ("a".to_string(), row(3, "a", None, Some("h"))),
        ("b".to_string(), row(4, "b", Some("g"), Some("h"))),
    ];
    assert_eq!(
        oops_preview_lines(&plan),
        vec![
            "agent-undo would undo the following:".to_string(),
            "".to_string(),
            "  created     a  (event #3, agent: codex)".to_string(),
            "  modified    b  (event #4, agent: codex)".to_string(),
            "".to_string(),
        ]
    );
    assert_eq!(
        oops_preview_lines(&Vec::new()),
        vec!["nothing to undo — no recent user events.".to_string()]
    );
    let done = oops_done_lines(&plan);
    assert_eq!(done[1], "restored 2 file(s):");
    assert_eq!(done[3], "  b");
    assert_eq!(question_text(2), "Roll back these 2 file(s)?");
}

#[test]
fn a_restored_pin_lists_twenty_paths() {
    let many: Vec<String> = (0..25).map(|i| format!("f{i}")).collect();
    let lines = unpin_lines("good", &many);
    assert_eq!(lines.len(), 22);
    assert_eq!(lines[0], "restored project to pin 'good' — 25 file(s):");
    assert_eq!(lines[21], "  ... and 5 more");
    assert_eq!(
        unpin_lines("good", &Vec::new()),
        vec!["pin 'good' has no recorded state to restore".to_string()]
    );
}

#[test]
fn a_command_runs_as_a_session() {
    let command = vec!["make".to_string(), "all".to_string()];
    let s = exec_session("codex".to_string(), Some("build".to_string()), &command, "cafe");
    assert_eq!(s.session_id, Some("exec-cafe".to_string()));
    assert_eq!(s.metadata, Some(r#"{"command":["make","all"]}"#.to_string()));
    assert_eq!(s.prompt, Some("build".to_string()));
    let mut store = Store::init(paths());
    let id = start_exec(&mut store, "codex".to_string(), None, &command);
    assert!(id.starts_with("exec-"));
    assert_eq!(id.len(), 37);
    assert_eq!(store.latest_session().expect("session").id, id);
    assert_eq!(
        exec_begin_text("exec-0123456789abcdef", "codex"),
        Some("agent-undo exec: running as session exec-0123456789a (agent=codex)".to_string())
    );
    assert_eq!(
        exec_end_text("exec-0123456789abcdef"),
        Some("agent-undo exec: session closed (exec-0123456789a)".to_string())
    );
    assert_eq!(exec_end_text("short"), None);
}

#[test]
fn differences_and_collections_are_told() {
    assert!(matches!(choose_diff(Some(3), None), DiffStep::Event { id: 3 }));
    assert!(matches!(choose_diff(None, Some("s".to_string())), DiffStep::Session { .. }));
    assert!(matches!(choose_diff(None, None), DiffStep::Usage));
    assert_eq!(
        gc_lines(3, 2, "7d")[0],
        "gc: removed 3 event(s) and 2 blob(s) older than 7d".to_string()
    );
}

#[test]
fn a_project_is_set_up() {
    assert_eq!(check_init(true, false), Ok(()));
    assert_eq!(
        check_init(true, true),
        Err("choose only one of --install-hooks or --uninstall-hooks".to_string())
    );
    let installed = Installing::Installed { path: "/p".to_string() };
    assert_eq!(
        installing_lines(&installed, "Helper Pro"),
        vec![
            "".to_string(),
            "✓ installed Helper Pro hooks into /p".to_string(),
            "  Helper Pro edits will now be attributed automatically.".to_string(),
            "  Restart any open Helper Pro sessions to pick them up.".to_string(),
        ]
    );
    let failed = Installing::Failed { reason: "why".to_string() };
    assert_eq!(
        installing_lines(&failed, "Helper Pro")[1],
        "⚠ could not install Helper Pro hooks: why"
    );
    assert_eq!(
        removing_lines(&Ok(1), "Helper Pro")[1],
        "✓ removed 1 Helper Pro hook entry from your settings"
    );
    assert_eq!(
        removing_lines(&Ok(2), "Helper Pro")[1],
        "✓ removed 2 Helper Pro hook entries from your settings"
    );
    assert_eq!(
        removing_lines(&Ok(0), "Helper Pro")[1],
        "✓ no agent-undo Helper Pro hooks were installed"
    );
    assert_eq!(closing_lines(false, false, "Helper Pro").len(), 0);
    assert_eq!(closing_lines(true, true, "Helper Pro").len(), 5);
    assert_eq!(
        closing_lines(true, false, "Helper Pro")[6],
        "Tip: run `au init --install-hooks` to auto-attribute Helper Pro edits."
    );
}

#[test]
fn the_state_of_a_project_is_told() {
    let lines = status_lines(&paths(), 7, true, true, None, &None);
    assert_eq!(
        lines,
        vec![
            "root:     /work/project".to_string(),
            "data:     /work/project/.agent-undo".to_string(),
            "events:   7".to_string(),
            "database: /work/project/.agent-undo/timeline.db".to_string(),
            "daemon:   running (/work/project/.agent-undo/daemon.sock)".to_string(),
        ]
    );
    let lines = status_lines(&paths(), 7, false, true, Some(9), &None);
    assert_eq!(lines[4], "daemon:   running (pid 9, socket unavailable)");
    let lines = status_lines(&paths(), 7, false, false, None, &Some(" /tmp/x\n".to_string()));
    assert_eq!(lines[4], "daemon:   unavailable");
    assert_eq!(lines[5], "socket:   expected at /tmp/x");
    let doc = status_json(&paths(), 7, true, &Some(active()));
    assert_eq!(doc["events"], 7);
    assert_eq!(doc["daemon_running"], true);
    assert_eq!(doc["active_session"]["agent"], "codex");
    assert_eq!(doc["active_session"]["started_at_ns"], 5);
    assert!(doc["active_session"]["tool_name"].is_null());
    assert!(status_json(&paths(), 7, true, &None)["active_session"].is_null());
    assert!(pretty_json(&doc).expect("text").contains("\"root\": \"/work/project\""));
}

#[test]
fn a_daemon_is_started_once() {
    assert_eq!(pid_in(" 42\n"), Some(42));
    assert_eq!(pid_in("none"), None);
    match spawn_step(Some(42), true) {
        SpawnStep::Running { message } => assert_eq!(
            message,
            "agent-undo daemon already running (pid 42). Use `agent-undo stop` to stop it."
        ),
        other => panic!("unexpected step: {other:?}"),
    }
    assert!(matches!(spawn_step(Some(42), false), SpawnStep::Replace));
    assert!(matches!(spawn_step(None, false), SpawnStep::Start));
    assert_eq!(
        started_lines(42, "/log"),
        vec![
            "agent-undo daemon started (pid 42). Logs: /log".to_string(),
            "Stop with: agent-undo stop".to_string(),
        ]
    );
}

#[test]
fn a_daemon_is_asked_to_end_and_then_ended() {
    match stop_start(None, false, "/work/project") {
        (StopState::Over, StopAction::Finish { message, .. }) => {
            assert_eq!(message, "no daemon running for /work/project")
        }
        other => panic!("unexpected: {other:?}"),
    }
    match stop_start(Some(7), false, "/work/project") {
        (StopState::Over, StopAction::Finish { message, remove_file, .. }) => {
            assert_eq!(message, "stale pidfile for pid 7; cleaning up");
            assert!(remove_file);
        }
        other => panic!("unexpected: {other:?}"),
    }
    let (mut state, action) = stop_start(Some(7), true, "/work/project");
    assert!(matches!(action, StopAction::Ask));
    let mut event = StopEvent::Replied { reply: Some(Response::ShutdownAccepted) };
    let mut looks: u32 = 0;
    loop {
        let (next, action) = stop_step(7, state, event);
        state = next;
        event = match action {
            StopAction::Look | StopAction::PauseAndLook => {
                looks += 1;
                StopEvent::Looked { file: true, alive: looks <= 2 * STOP_LOOKS }
            }
            StopAction::Kill { complaint } => {
                assert!(complaint.is_none());
                assert_eq!(looks, STOP_LOOKS + 1);
                StopEvent::Killed { message: "ended".to_string() }
            }
            StopAction::Finish { message, remove_file, remove_socket } => {
                assert_eq!(message, "ended");
                assert!(remove_file && remove_socket);
                break;
            }
            other => panic!("unexpected action: {other:?}"),
        };
    }
    let refusal = Response::Error { message: "busy".to_string() };
    match stop_step(7, StopState::Asking, StopEvent::Replied { reply: Some(refusal) }) {
        (StopState::Ending, StopAction::Kill { complaint: Some(m) }) => {
            assert_eq!(m, "daemon shutdown request failed: busy")
        }
        other => panic!("unexpected: {other:?}"),
    }
    let last = StopState::EndedLast { message: "ended".to_string() };
    match stop_step(7, last, StopEvent::Looked { file: true, alive: true }) {
        (StopState::Over, StopAction::Fail { message }) => assert_eq!(
            message,
            "agent-undo daemon still running after stop attempt (pid 7)"
        ),
        other => panic!("unexpected: {other:?}"),
    }
}

fn presets() -> Vec<Preset> {
    ["codex", "aider"]
        .iter()
        .map(|n| Preset { name: n.to_string(), agent: n.to_string(), binary: format!("{n}-bin") })
        .collect()
}

#[test]
fn a_check_up_tells_what_it_finds() {
    assert_eq!(
        project_lines(&None)[3],
        "✗ no .agent-undo/ found in this directory or any parent"
    );
    assert_eq!(project_lines(&Some("/r".to_string()))[3], "✓ project initialized at /r");
    let read = Settings::Read { file: true, keep_last: "7d".to_string(), max_file_size_mb: 10 };
    assert_eq!(
        settings_lines("/c", &read, true),
        (
            false,
            vec!["✓ config loaded from /c (gc.keep_last=7d, watch.max_file_size_mb=10)".to_string()]
        )
    );
    let none = Settings::Read { file: false, keep_last: "7d".to_string(), max_file_size_mb: 10 };
    assert_eq!(
        settings_lines("/c", &none, true),
        (true, vec!["✓ wrote default config to /c".to_string()])
    );
    assert!(!settings_lines("/c", &none, false).0);
    let broken = Settings::Broken { reason: "why".to_string() };
    assert_eq!(settings_lines("/c", &broken, true).1[0], "✗ could not parse config at /c: why");
    assert_eq!(wrappers_lines(2, "/b", "env")[0], "✓ 2 wrapper(s) in /b");
    assert_eq!(wrappers_lines(0, "/b", "env").len(), 3);
    let installed = vec!["codex-bin".to_string()];
    assert_eq!(missing_wrappers(&presets(), &installed).len(), 1);
    let step = wrap_step(&presets(), &installed, true);
    assert_eq!(step.before[0], "✓ detected terminal-agent CLI(s) on PATH: codex, aider");
    assert_eq!(step.install[0].binary, "aider-bin");
    assert_eq!(step.after[0], "  fixed: installed wrapper(s) for aider-bin");
    let step = wrap_step(&presets(), &installed, false);
    assert_eq!(step.install.len(), 0);
    assert_eq!(step.after[0], "  → wrappers missing for: aider-bin");
    assert_eq!(wrap_step(&Vec::new(), &installed, true).before.len(), 0);
}

#[test]
fn a_check_up_looks_at_the_daemon() {
    let status = Some(Response::Status { events: 3, active_session: Some(active()) });
    let pid = Some("42\n".to_string());
    assert_eq!(
        daemon_lines(&pid, true, &status, "/f", "/s", "/h", true),
        (
            false,
            vec![
                "✓ daemon running (pid 42, 3 events, socket /s)".to_string(),
                "  active session via daemon: codex (s-1)".to_string(),
            ]
        )
    );
    assert_eq!(
        daemon_lines(&pid, true, &None, "/f", "/s", "/h", true),
        (
            false,
            vec!["✓ daemon running (pid 42) but socket is unavailable at /h".to_string()]
        )
    );
    let (clear, lines) = daemon_lines(&pid, false, &None, "/f", "/s", "/h", true);
    assert!(clear);
    assert_eq!(lines[0], "⚠ stale pidfile at /f (pid 42 not alive)");
    assert_eq!(lines[1], "  fixed: removed stale pidfile");
    assert!(!daemon_lines(&pid, false, &None, "/f", "/s", "/h", false).0);
    let (_, lines) = daemon_lines(&None, false, &status, "/f", "/s", "/h", true);
    assert_eq!(lines[0], "✓ daemon control socket responding at /s");
    assert_eq!(lines[1], "  daemon reports 3 event(s)");
    let (_, lines) = daemon_lines(&None, false, &None, "/f", "/s", "/h", true);
    assert_eq!(lines[0], "⚠ daemon not running");
    assert_eq!(socket_hint(&Some(" /x ".to_string()), "/s"), "/x");
    assert_eq!(socket_hint(&None, "/s"), "/s");
}

#[test]
fn a_check_up_looks_at_hooks_and_sessions() {
    assert_eq!(marker_lines(false, true, "/m").len(), 2);
    assert_eq!(marker_lines(true, true, "/m").len(), 0);
    assert!(has_hook("x au hook pre") && has_hook("agent-undo hook") && !has_hook("au"));
    let (install, lines) = hooks_lines("Helper Pro", "/p", &Some("{}".to_string()), true);
    assert!(install);
    assert_eq!(
        lines,
        vec!["⚠ Helper Pro settings.json exists but no agent-undo hook found".to_string()]
    );
    let (install, lines) = hooks_lines("Helper Pro", "/p", &None, true);
    assert!(!install);
    assert_eq!(lines[0], "ℹ Helper Pro not detected (no /p found)");
    assert_eq!(
        hooks_outcome_text("Helper", &Ok(())),
        "  fixed: installed agent-undo Helper hooks"
    );
    assert_eq!(hooks_outcome_text("Helper", &Err("why".to_string())), "  fix failed: why");
    let lines = end_lines(&vec![session("0123456789abcdef")], &vec!["then".to_string()], true)
        .expect("shown");
    assert_eq!(lines[1], "recent sessions:");
    assert_eq!(lines[2], "  0123456789ab codex — then");
    assert_eq!(lines[4], "repair pass complete. try `au log` to see what's happening.");
    assert_eq!(
        end_lines(&Vec::new(), &Vec::new(), false).expect("shown")[1],
        "no agent sessions recorded yet."
    );
    assert!(end_lines(&vec![session("01234567890é")], &vec!["t".to_string()], true).is_none());
}

#[test]
fn a_check_up_is_told_as_a_document() {
    let f = Findings {
        events: 5,
        settings: Some(("7d".to_string(), 10)),
        wrappers: vec!["/b/codex-bin".to_string()],
        found: presets(),
        wrapped: vec!["codex-bin".to_string()],
        pid: Some((42, true)),
        reply: None,
        running: true,
        info: None,
        marker: true,
        hook_path: Some("/p".to_string()),
        hook_settings: Some("au hook".to_string()),
        swept: Some(3),
    };
    let doc = doctor_json(&paths(), &f, true);
    assert_eq!(doc["events"], 5);
    assert_eq!(doc["config"]["gc_keep_last"], "7d");
    assert_eq!(doc["config"]["watch_max_file_size_mb"], 10);
    assert_eq!(doc["wrappers"]["missing_for_detected"][0], "aider-bin");
    assert_eq!(doc["daemon"]["pid"], 42);
    assert_eq!(doc["daemon"]["status"]["via"], "pidfile");
    assert_eq!(doc["daemon"]["socket_hint"], "/work/project/.agent-undo/daemon.sock");
    assert_eq!(
        doc["active_session_marker"]["path"],
        "/work/project/.agent-undo/active-session.json"
    );
    assert_eq!(doc["claude_hooks"]["installed"], true);
    assert_eq!(doc["fix"]["orphan_blobs_removed"], 3);
}

#[test]
fn wrappers_are_chosen() {
    let p = presets().remove(0);
    assert_eq!(
        choose_wrapper(Wanted::Known(p.clone()), None, None),
        Ok(("codex".to_string(), "codex-bin".to_string()))
    );
    assert_eq!(
        choose_wrapper(Wanted::Known(p), Some("x".to_string()), Some("y".to_string())),
        Ok(("codex".to_string(), "y".to_string()))
    );
    assert_eq!(
        choose_wrapper(Wanted::Unknown("z".to_string()), None, None),
        Err("unknown preset `z`".to_string())
    );
    assert_eq!(
        choose_wrapper(Wanted::Unnamed, Some("x".to_string()), None),
        Ok(("x".to_string(), "x".to_string()))
    );
    assert_eq!(
        choose_wrapper(Wanted::Unnamed, None, None),
        Err("pass either --preset <name> or --agent <name>".to_string())
    );
    assert_eq!(next_lines(&Some("codex".to_string()))[2], "  codex --help");
    assert_eq!(preset_text("codex", "a", "b"), "codex      agent=a binary=b");
}
